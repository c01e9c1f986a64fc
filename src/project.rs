use vstd::prelude::*;

use crate::drag::{has_link, linked};
use crate::grouping::{arrange, grouped, lemma_sort_grouped, root_pred, sorted_grouped};
use crate::rollup::{rolled_progress, totals_of, child_pred, child_totals, children_of, lemma_children_facts, lemma_rollup_keeps_wf, lemma_totals_facts, roll_task, rolled, rollup_spec};
use crate::task::{Dependency, Task};

verus! {

/// A project: its tasks in display order, the links between them, and when
/// it was created and last changed (milliseconds since the Unix epoch).
#[derive(Debug)]
pub struct Project {
    pub name: String,
    pub tasks: Vec<Task>,
    pub dependencies: Vec<Dependency>,
    pub created: i64,
    pub modified: i64,
}

/// Relies on chrono::Utc::now and DateTime::timestamp_millis: the current
/// time in milliseconds since the Unix epoch.
#[verifier::external_body]
fn now_millis() -> (r: i64) {
    chrono::Utc::now().timestamp_millis()
}

pub open spec fn ids_unique(ts: Seq<Task>) -> bool {
    forall|i: int, j: int| 0 <= i < ts.len() && 0 <= j < ts.len() && i != j ==> #[trigger] ts[i].id != #[trigger] ts[j].id
}

/// Whether some task of `ts` has id `id` and no parent.
pub open spec fn is_root_id(ts: Seq<Task>, id: u128) -> bool {
    exists|k: int| 0 <= k < ts.len() && #[trigger] ts[k].id == id && ts[k].parent_id is None
}

/// Every parent reference names a task of the sequence that has no parent
/// of its own: the hierarchy is one level deep.
pub open spec fn hierarchy_ok(ts: Seq<Task>) -> bool {
    forall|i: int| 0 <= i < ts.len() ==> match (#[trigger] ts[i]).parent_id {
        Some(p) => is_root_id(ts, p),
        None => true,
    }
}

pub open spec fn tasks_wf(ts: Seq<Task>) -> bool {
    forall|i: int| 0 <= i < ts.len() ==> (#[trigger] ts[i]).wf()
}

/// No ordered pair of tasks is linked twice.
pub open spec fn pairs_unique(ds: Seq<Dependency>) -> bool {
    forall|i: int, j: int|
        0 <= i < ds.len() && 0 <= j < ds.len() && i != j && #[trigger] ds[i].from_task == #[trigger] ds[j].from_task
            ==> ds[i].to_task != ds[j].to_task
}

pub open spec fn is_child_of(t: Task, id: u128) -> bool {
    t.parent_id == Some(id)
}

pub open spec fn has_children_spec(ts: Seq<Task>, id: u128) -> bool {
    exists|j: int| 0 <= j < ts.len() && #[trigger] is_child_of(ts[j], id)
}

/// The dependencies after adding `dep`: unchanged when its ordered pair is
/// already linked.
pub open spec fn add_dependency_spec(ds: Seq<Dependency>, dep: Dependency) -> Seq<Dependency> {
    if linked(ds, dep.from_task, dep.to_task) {
        ds
    } else {
        ds.push(dep)
    }
}

pub open spec fn links_pair(d: Dependency, from: u128, to: u128) -> bool {
    d.from_task == from && d.to_task == to
}

/// Keeps the dependencies that do not link `from` to `to`.
pub open spec fn unlinks(from: u128, to: u128) -> spec_fn(Dependency) -> bool {
    |d: Dependency| !links_pair(d, from, to)
}

/// How many dependencies link `from` to `to`.
pub open spec fn pair_count(ds: Seq<Dependency>, from: u128, to: u128) -> nat {
    ds.filter(|d: Dependency| links_pair(d, from, to)).len()
}

proof fn lemma_pair_count_unique(ds: Seq<Dependency>, from: u128, to: u128)
    requires
        pairs_unique(ds),
    ensures
        linked(ds, from, to) ==> pair_count(ds, from, to) == 1,
        !linked(ds, from, to) ==> pair_count(ds, from, to) == 0,
    decreases ds.len(),
{
    reveal(Seq::filter);
    if ds.len() == 0 {
        return;
    }
    let init = ds.drop_last();
    assert(pairs_unique(init)) by {
        assert forall|i: int, j: int|
            0 <= i < init.len() && 0 <= j < init.len() && i != j && #[trigger] init[i].from_task
                == #[trigger] init[j].from_task implies init[i].to_task != init[j].to_task by {
            assert(init[i] == ds[i] && init[j] == ds[j]);
        }
    }
    lemma_pair_count_unique(init, from, to);
    let last = ds.last();
    if links_pair(last, from, to) {
        assert forall|i: int| 0 <= i < init.len() implies !(#[trigger] init[i].from_task == from && init[i].to_task == to) by {
            assert(init[i] == ds[i]);
            let l = ds.len() - 1;
            if ds[i].from_task == from && ds[i].to_task == to {
                assert(ds[i].from_task == ds[l].from_task);
            }
        }
        assert(linked(ds, from, to)) by {
            assert(ds[ds.len() - 1].from_task == from && ds[ds.len() - 1].to_task == to);
        }
    } else {
        if linked(ds, from, to) {
            let i = choose|i: int| 0 <= i < ds.len() && #[trigger] ds[i].from_task == from && ds[i].to_task == to;
            assert(i < ds.len() - 1);
            assert(init[i] == ds[i]);
            assert(linked(init, from, to));
        } else {
            assert forall|i: int| 0 <= i < init.len() implies !(#[trigger] init[i].from_task == from && init[i].to_task == to) by {
                assert(init[i] == ds[i]);
            }
        }
    }
}

/// Adding one link twice leaves exactly one dependency for its ordered pair,
/// and the second addition changes nothing.
pub proof fn lemma_add_dependency_idempotent(ds: Seq<Dependency>, dep: Dependency)
    requires
        pairs_unique(ds),
    ensures
        add_dependency_spec(add_dependency_spec(ds, dep), dep) == add_dependency_spec(ds, dep),
        pair_count(add_dependency_spec(add_dependency_spec(ds, dep), dep), dep.from_task, dep.to_task) == 1,
{
    let once = add_dependency_spec(ds, dep);
    lemma_add_keeps_pairs_unique(ds, dep);
    assert(linked(once, dep.from_task, dep.to_task)) by {
        if !linked(ds, dep.from_task, dep.to_task) {
            assert(once[once.len() - 1] == dep);
        }
    }
    lemma_pair_count_unique(once, dep.from_task, dep.to_task);
}

proof fn lemma_add_keeps_pairs_unique(ds: Seq<Dependency>, dep: Dependency)
    requires
        pairs_unique(ds),
    ensures
        pairs_unique(add_dependency_spec(ds, dep)),
{
    if !linked(ds, dep.from_task, dep.to_task) {
        let n = ds.push(dep);
        assert forall|i: int, j: int|
            0 <= i < n.len() && 0 <= j < n.len() && i != j && #[trigger] n[i].from_task == #[trigger] n[j].from_task
                implies n[i].to_task != n[j].to_task by {
            if i < ds.len() && j < ds.len() {
                assert(n[i] == ds[i] && n[j] == ds[j]);
            } else if i < ds.len() {
                assert(n[i] == ds[i]);
                assert(!(ds[i].from_task == dep.from_task && ds[i].to_task == dep.to_task));
            } else {
                assert(n[j] == ds[j]);
                assert(!(ds[j].from_task == dep.from_task && ds[j].to_task == dep.to_task));
            }
        }
    }
}


/// Whether the task survives deleting task `id`: it is neither that task
/// nor one of its children.
pub open spec fn survives(id: u128) -> spec_fn(Task) -> bool {
    |t: Task| t.id != id && t.parent_id != Some(id)
}

/// Whether `x` is the id of a child of `id` in `ts`.
pub open spec fn is_child_id(ts: Seq<Task>, id: u128, x: u128) -> bool {
    exists|k: int| 0 <= k < ts.len() && #[trigger] ts[k].id == x && ts[k].parent_id == Some(id)
}

/// Whether `x` goes when task `id` of `ts` is deleted.
pub open spec fn deleted_id(ts: Seq<Task>, id: u128, x: u128) -> bool {
    x == id || is_child_id(ts, id, x)
}

/// Whether a dependency survives deleting task `id` of `ts`: it touches
/// neither that task nor any of its children.
pub open spec fn dep_survives(ts: Seq<Task>, id: u128) -> spec_fn(Dependency) -> bool {
    |d: Dependency| !deleted_id(ts, id, d.from_task) && !deleted_id(ts, id, d.to_task)
}

pub(crate) proof fn lemma_filter_keeps_tasks(ts: Seq<Task>, pred: spec_fn(Task) -> bool)
    requires
        tasks_wf(ts),
        ids_unique(ts),
    ensures
        tasks_wf(ts.filter(pred)),
        ids_unique(ts.filter(pred)),
        forall|t: Task| #[trigger] ts.filter(pred).contains(t) <==> ts.contains(t) && pred(t),
    decreases ts.len(),
{
    reveal(Seq::filter);
    if ts.len() == 0 {
        return;
    }
    let init = ts.drop_last();
    assert(ids_unique(init)) by {
        assert forall|i: int, j: int| 0 <= i < init.len() && 0 <= j < init.len() && i != j implies #[trigger] init[i].id
            != #[trigger] init[j].id by {
            assert(init[i] == ts[i] && init[j] == ts[j]);
        }
    }
    assert(tasks_wf(init)) by {
        assert forall|i: int| 0 <= i < init.len() implies (#[trigger] init[i]).wf() by {
            assert(init[i] == ts[i]);
        }
    }
    lemma_filter_keeps_tasks(init, pred);
    let sub = init.filter(pred);
    let last = ts.last();
    assert forall|t: Task| #[trigger] ts.contains(t) <==> init.contains(t) || t == last by {
        if ts.contains(t) {
            let k = choose|k: int| 0 <= k < ts.len() && ts[k] == t;
            if k < ts.len() - 1 {
                assert(init[k] == t);
            }
        }
        if init.contains(t) {
            let k = choose|k: int| 0 <= k < init.len() && init[k] == t;
            assert(ts[k] == t);
        }
        if t == last {
            assert(ts[ts.len() - 1] == t);
        }
    }
    if pred(last) {
        let n = sub.push(last);
        assert forall|t: Task| #[trigger] n.contains(t) <==> sub.contains(t) || t == last by {
            if n.contains(t) {
                let k = choose|k: int| 0 <= k < n.len() && n[k] == t;
                if k < sub.len() {
                    assert(sub[k] == t);
                }
            }
            if sub.contains(t) {
                let k = choose|k: int| 0 <= k < sub.len() && sub[k] == t;
                assert(n[k] == t);
            }
            if t == last {
                assert(n[n.len() - 1] == t);
            }
        }
        assert forall|i: int| 0 <= i < n.len() implies (#[trigger] n[i]).wf() by {
            if i < sub.len() {
                assert(n[i] == sub[i]);
            }
        }
        assert forall|i: int, j: int| 0 <= i < n.len() && 0 <= j < n.len() && i != j implies #[trigger] n[i].id
            != #[trigger] n[j].id by {
            if i < sub.len() && j < sub.len() {
                assert(n[i] == sub[i] && n[j] == sub[j]);
            } else {
                let k = if i < sub.len() { i } else { j };
                assert(n[k] == sub[k]);
                assert(sub.contains(sub[k]));
                let m = choose|m: int| 0 <= m < init.len() && init[m] == sub[k];
                assert(ts[m] == init[m]);
                assert(ts[ts.len() - 1] == last);
            }
        }
    } else {
        assert forall|t: Task| #[trigger] sub.contains(t) <==> ts.contains(t) && pred(t) by {
            if t == last && !init.contains(t) {
                assert(!pred(t));
            }
        }
    }
}

proof fn lemma_delete_keeps_hierarchy(ts: Seq<Task>, id: u128)
    requires
        tasks_wf(ts),
        ids_unique(ts),
        hierarchy_ok(ts),
    ensures
        hierarchy_ok(ts.filter(survives(id))),
{
    let n = ts.filter(survives(id));
    lemma_filter_keeps_tasks(ts, survives(id));
    assert forall|i: int| 0 <= i < n.len() implies match (#[trigger] n[i]).parent_id {
        Some(p) => is_root_id(n, p),
        None => true,
    } by {
        if let Some(p) = n[i].parent_id {
            assert(n.contains(n[i]));
            let a = choose|a: int| 0 <= a < ts.len() && ts[a] == n[i];
            assert(is_root_id(ts, p));
            let k = choose|k: int| 0 <= k < ts.len() && #[trigger] ts[k].id == p && ts[k].parent_id is None;
            assert(survives(id)(n[i]));
            assert(survives(id)(ts[k]));
            assert(ts.contains(ts[k]));
            assert(n.contains(ts[k]));
            let b = choose|b: int| 0 <= b < n.len() && n[b] == ts[k];
            assert(n[b].id == p && n[b].parent_id is None);
        }
    }
}


/// Whether task `i` of `ts` shows: it has no parent, or no task with its
/// parent's id is collapsed.
pub open spec fn row_visible(ts: Seq<Task>, i: int) -> bool {
    match ts[i].parent_id {
        Some(p) => !exists|k: int| 0 <= k < ts.len() && #[trigger] ts[k].id == p && ts[k].collapsed,
        None => true,
    }
}

/// Whether `t` may become the parent of task `me`: another top-level task
/// that is not one of `me`'s children.
pub open spec fn parent_candidate(me: u128, t: Task) -> bool {
    t.id != me && t.parent_id != Some(me) && t.parent_id is None
}

/// Whether some dependency joins `a` and `b`, in either direction.
pub open spec fn joined(ds: Seq<Dependency>, a: u128, b: u128) -> bool {
    exists|i: int| 0 <= i < ds.len() && ((#[trigger] ds[i]).from_task == a && ds[i].to_task == b || ds[i].from_task == b && ds[i].to_task == a)
}

/// Whether the editor offers `t` as a new link partner of `me`: not `me`,
/// not already joined to it, not a summary task, and a sibling of `me` (or
/// top-level like `me`).
pub open spec fn link_candidate(ts: Seq<Task>, ds: Seq<Dependency>, me: Task, t: Task) -> bool {
    &&& t.id != me.id
    &&& !joined(ds, me.id, t.id)
    &&& !has_children_spec(ts, t.id)
    &&& match me.parent_id {
        Some(p) => t.parent_id == Some(p),
        None => t.parent_id is None,
    }
}

fn contains_id(v: &Vec<u128>, x: u128) -> (r: bool)
    ensures
        r == v@.contains(x),
{
    let mut i: usize = 0;
    while i < v.len()
        invariant
            i <= v@.len(),
            forall|j: int| 0 <= j < i ==> v@[j] != x,
        decreases v@.len() - i,
    {
        if v[i] == x {
            assert(v@[i as int] == x);
            return true;
        }
        i += 1;
    }
    false
}

impl Default for Project {
    /// An empty project named "Untitled Project", created now.
    fn default() -> (r: Project)
        ensures
            r.wf(),
            r.name@ == "Untitled Project"@,
            r.tasks@.len() == 0,
            r.dependencies@.len() == 0,
            r.modified == r.created,
    {
        Project::new("Untitled Project".to_owned())
    }
}

impl Project {
    /// The project's invariant: every task well formed, ids distinct, a
    /// one-level hierarchy, and each ordered pair linked at most once.
    pub open spec fn wf(&self) -> bool {
        &&& tasks_wf(self.tasks@)
        &&& ids_unique(self.tasks@)
        &&& hierarchy_ok(self.tasks@)
        &&& pairs_unique(self.dependencies@)
    }

    /// An empty project named `name`, created now.
    pub fn new(name: String) -> (r: Project)
        ensures
            r.wf(),
            r.name == name,
            r.tasks@.len() == 0,
            r.dependencies@.len() == 0,
            r.modified == r.created,
    {
        let now = now_millis();
        Project { name, tasks: Vec::new(), dependencies: Vec::new(), created: now, modified: now }
    }

    /// Records that the project changed now.
    pub fn touch(&mut self)
        ensures
            final(self).name == old(self).name,
            final(self).tasks == old(self).tasks,
            final(self).dependencies == old(self).dependencies,
            final(self).created == old(self).created,
    {
        self.modified = now_millis();
    }

    /// Position of the task with id `id`.
    pub fn find_task(&self, id: u128) -> (r: Option<usize>)
        ensures
            r matches Some(i) ==> i < self.tasks@.len() && self.tasks@[i as int].id == id,
            r is None ==> forall|i: int| 0 <= i < self.tasks@.len() ==> (#[trigger] self.tasks@[i]).id != id,
    {
        let mut i: usize = 0;
        while i < self.tasks.len()
            invariant
                i <= self.tasks@.len(),
                forall|j: int| 0 <= j < i ==> (#[trigger] self.tasks@[j]).id != id,
            decreases self.tasks@.len() - i,
        {
            if self.tasks[i].id == id {
                return Some(i);
            }
            i += 1;
        }
        None
    }

    /// Whether some task names `id` as its parent.
    pub fn has_children(&self, id: u128) -> (r: bool)
        ensures
            r == has_children_spec(self.tasks@, id),
    {
        let mut i: usize = 0;
        while i < self.tasks.len()
            invariant
                i <= self.tasks@.len(),
                forall|j: int| 0 <= j < i ==> !#[trigger] is_child_of(self.tasks@[j], id),
            decreases self.tasks@.len() - i,
        {
            if self.tasks[i].parent_id == Some(id) {
                assert(is_child_of(self.tasks@[i as int], id));
                return true;
            }
            i += 1;
        }
        false
    }

    /// Adds a link unless its ordered pair is already linked. Returns whether
    /// it was added.
    pub fn add_dependency(&mut self, dep: Dependency) -> (r: bool)
        requires
            old(self).wf(),
        ensures
            final(self).wf(),
            final(self).dependencies@ == add_dependency_spec(old(self).dependencies@, dep),
            r == !linked(old(self).dependencies@, dep.from_task, dep.to_task),
            final(self).tasks == old(self).tasks,
            final(self).name == old(self).name,
            final(self).created == old(self).created,
            final(self).modified == old(self).modified,
    {
        proof {
            lemma_add_keeps_pairs_unique(self.dependencies@, dep);
        }
        if has_link(&self.dependencies, dep.from_task, dep.to_task) {
            false
        } else {
            self.dependencies.push(dep);
            true
        }
    }

    /// Removes every link from `from` to `to`.
    pub fn remove_dependency(&mut self, from: u128, to: u128)
        requires
            old(self).wf(),
        ensures
            final(self).wf(),
            final(self).dependencies@ == old(self).dependencies@.filter(unlinks(from, to)),
            final(self).tasks == old(self).tasks,
            final(self).name == old(self).name,
            final(self).created == old(self).created,
            final(self).modified == old(self).modified,
    {
        let ghost ds = self.dependencies@;
        let mut kept: Vec<Dependency> = Vec::new();
        let mut i: usize = 0;
        while i < self.dependencies.len()
            invariant
                i <= ds.len(),
                ds == self.dependencies@,
                kept@ == ds.take(i as int).filter(unlinks(from, to)),
            decreases ds.len() - i,
        {
            let d = self.dependencies[i];
            if !(d.from_task == from && d.to_task == to) {
                kept.push(d);
            }
            proof {
                reveal(Seq::filter);
                assert(ds.take(i + 1).drop_last() =~= ds.take(i as int));
                assert(ds.take(i + 1).last() == d);
            }
            i += 1;
        }
        proof {
            assert(ds.take(ds.len() as int) =~= ds);
            lemma_filter_keeps_pairs_unique(ds, unlinks(from, to));
        }
        self.dependencies = kept;
    }
    /// Recomputes every summary task from its children: earliest start,
    /// latest end, duration-weighted progress. Other tasks are unchanged.
    pub fn recalculate_parent_dates(&mut self)
        requires
            old(self).wf(),
        ensures
            final(self).wf(),
            final(self).tasks@ == rollup_spec(old(self).tasks@),
            final(self).dependencies == old(self).dependencies,
            final(self).name == old(self).name,
            final(self).created == old(self).created,
            final(self).modified == old(self).modified,
    {
        let ghost ts = self.tasks@;
        let mut out: Vec<Task> = Vec::new();
        let mut i: usize = 0;
        while i < self.tasks.len()
            invariant
                i <= ts.len(),
                ts == self.tasks@,
                tasks_wf(ts),
                out@.len() == i,
                forall|k: int| 0 <= k < i ==> #[trigger] out@[k] == rolled(ts, ts[k]),
            decreases ts.len() - i,
        {
            let t = &self.tasks[i];
            let tot = child_totals(&self.tasks, t.id);
            proof {
                lemma_children_facts(ts, t.id);
                lemma_totals_facts(children_of(ts, t.id));
            }
            if tot.0 > 0 {
                out.push(roll_task(t, tot));
            } else {
                out.push(t.duplicate());
            }
            i += 1;
        }
        proof {
            let r = rollup_spec(ts);
            assert(out@ =~= r);
            lemma_rollup_keeps_wf(ts);
        }
        self.tasks = out;
    }

    /// Reorders the tasks so that each top-level task is followed by its
    /// children, keeping the relative order of top-level tasks and of each
    /// parent's children.
    #[verifier::rlimit(60)]
    pub fn sort_tasks_grouped(&mut self)
        requires
            old(self).wf(),
        ensures
            final(self).wf(),
            final(self).tasks@ == sorted_grouped(old(self).tasks@),
            grouped(final(self).tasks@),
            forall|t: Task| #[trigger] final(self).tasks@.contains(t) <==> old(self).tasks@.contains(t),
            final(self).tasks@.len() == old(self).tasks@.len(),
            final(self).dependencies == old(self).dependencies,
            final(self).name == old(self).name,
            final(self).created == old(self).created,
            final(self).modified == old(self).modified,
    {
        let ghost ts = self.tasks@;
        let mut out: Vec<Task> = Vec::new();
        let mut i: usize = 0;
        while i < self.tasks.len()
            invariant
                i <= ts.len(),
                ts == self.tasks@,
                out@ == arrange(ts, ts.take(i as int).filter(root_pred())),
            decreases ts.len() - i,
        {
            let ghost roots_before = ts.take(i as int).filter(root_pred());
            proof {
                reveal(Seq::filter);
                assert(ts.take(i + 1).drop_last() =~= ts.take(i as int));
                assert(ts.take(i + 1).last() == ts[i as int]);
            }
            if self.tasks[i].parent_id.is_none() {
                let id = self.tasks[i].id;
                out.push(self.tasks[i].duplicate());
                let mut j: usize = 0;
                while j < self.tasks.len()
                    invariant
                        i < ts.len(),
                        j <= ts.len(),
                        ts == self.tasks@,
                        id == ts[i as int].id,
                        out@ == arrange(ts, roots_before) + seq![ts[i as int]] + ts.take(j as int).filter(child_pred(id)),
                    decreases ts.len() - j,
                {
                    proof {
                        reveal(Seq::filter);
                        assert(ts.take(j + 1).drop_last() =~= ts.take(j as int));
                        assert(ts.take(j + 1).last() == ts[j as int]);
                    }
                    if self.tasks[j].parent_id == Some(id) {
                        out.push(self.tasks[j].duplicate());
                        proof {
                            assert(out@ =~= arrange(ts, roots_before) + seq![ts[i as int]] + ts.take(j + 1).filter(
                                child_pred(id),
                            ));
                        }
                    }
                    j += 1;
                }
                proof {
                    let roots_after = ts.take(i + 1).filter(root_pred());
                    assert(roots_after == roots_before.push(ts[i as int]));
                    assert(roots_after.drop_last() =~= roots_before);
                    assert(ts.take(ts.len() as int) =~= ts);
                    assert(out@ =~= arrange(ts, roots_after));
                }
            }
            i += 1;
        }
        proof {
            assert(ts.take(ts.len() as int) =~= ts);
            lemma_sort_grouped(ts);
        }
        self.tasks = out;
    }

    /// The positions of the tasks that show, in order: children of a
    /// collapsed parent are hidden.
    pub fn visible_rows(&self) -> (r: Vec<usize>)
        ensures
            forall|k: int| 0 <= k < r@.len() ==> #[trigger] r@[k] < self.tasks@.len() && row_visible(self.tasks@, r@[k] as int),
            forall|a: int, b: int| 0 <= a < b < r@.len() ==> #[trigger] r@[a] < #[trigger] r@[b],
            forall|i: int| 0 <= i < self.tasks@.len() && row_visible(self.tasks@, i) ==> #[trigger] r@.contains(i as usize),
    {
        let ghost ts = self.tasks@;
        let mut out: Vec<usize> = Vec::new();
        let mut i: usize = 0;
        while i < self.tasks.len()
            invariant
                i <= ts.len(),
                ts == self.tasks@,
                forall|k: int| 0 <= k < out@.len() ==> #[trigger] out@[k] < i && row_visible(ts, out@[k] as int),
                forall|a: int, b: int| 0 <= a < b < out@.len() ==> #[trigger] out@[a] < #[trigger] out@[b],
                forall|j: int| 0 <= j < i && row_visible(ts, j) ==> #[trigger] out@.contains(j as usize),
            decreases ts.len() - i,
        {
            let shown = match self.tasks[i].parent_id {
                Some(p) => !self.is_collapsed_id(p),
                None => true,
            };
            let ghost before = out@;
            if shown {
                out.push(i);
                proof {
                    assert forall|j: int| 0 <= j < i + 1 && row_visible(ts, j) implies #[trigger] out@.contains(j as usize) by {
                        if j < i {
                            assert(before.contains(j as usize));
                            let m = choose|m: int| 0 <= m < before.len() && before[m] == j as usize;
                            assert(out@[m] == j as usize);
                        } else {
                            assert(out@[out@.len() - 1] == i);
                        }
                    }
                }
            } else {
                proof {
                    assert forall|j: int| 0 <= j < i + 1 && row_visible(ts, j) implies #[trigger] out@.contains(j as usize) by {
                        if j == i {
                            assert(!row_visible(ts, j));
                        }
                    }
                }
            }
            i += 1;
        }
        out
    }

    fn is_collapsed_id(&self, id: u128) -> (r: bool)
        ensures
            r == exists|k: int| 0 <= k < self.tasks@.len() && #[trigger] self.tasks@[k].id == id && self.tasks@[k].collapsed,
    {
        let mut i: usize = 0;
        while i < self.tasks.len()
            invariant
                i <= self.tasks@.len(),
                forall|k: int| 0 <= k < i ==> !(#[trigger] self.tasks@[k].id == id && self.tasks@[k].collapsed),
            decreases self.tasks@.len() - i,
        {
            if self.tasks[i].id == id && self.tasks[i].collapsed {
                return true;
            }
            i += 1;
        }
        false
    }

    /// Whether the project satisfies its invariant; for data that comes
    /// from outside, such as a loaded file.
    pub fn check_wf(&self) -> (r: bool)
        ensures
            r == self.wf(),
    {
        let ghost ts = self.tasks@;
        let n = self.tasks.len();
        let mut i: usize = 0;
        while i < n
            invariant
                n == ts.len(),
                ts == self.tasks@,
                i <= n,
                forall|a: int| 0 <= a < i ==> (#[trigger] ts[a]).wf(),
                forall|a: int, b: int| 0 <= a < i && 0 <= b < n && a != b ==> #[trigger] ts[a].id != #[trigger] ts[b].id,
                forall|a: int| 0 <= a < i ==> match (#[trigger] ts[a]).parent_id {
                    Some(p) => is_root_id(ts, p),
                    None => true,
                },
            decreases n - i,
        {
            let t = &self.tasks[i];
            if !(t.start <= t.end && t.progress <= crate::task::PROGRESS_FULL && (!t.is_milestone || t.start == t.end)
                && t.parent_id != Some(t.id)) {
                return false;
            }
            let mut j: usize = 0;
            while j < n
                invariant
                    n == ts.len(),
                    ts == self.tasks@,
                    i < n,
                    j <= n,
                    forall|b: int| 0 <= b < j && b != i ==> ts[i as int].id != #[trigger] ts[b].id,
                decreases n - j,
            {
                if j != i && self.tasks[j].id == self.tasks[i].id {
                    proof {
                        assert(ts[i as int].id == ts[j as int].id);
                    }
                    return false;
                }
                j += 1;
            }
            match self.tasks[i].parent_id {
                Some(p) => {
                    let mut found = false;
                    let mut k: usize = 0;
                    while k < n
                        invariant
                            n == ts.len(),
                            ts == self.tasks@,
                            k <= n,
                            found ==> is_root_id(ts, p),
                            !found ==> forall|m: int| 0 <= m < k ==> !(#[trigger] ts[m].id == p && ts[m].parent_id is None),
                        decreases n - k,
                    {
                        if self.tasks[k].id == p && self.tasks[k].parent_id.is_none() {
                            proof {
                                assert(ts[k as int].id == p);
                            }
                            found = true;
                        }
                        k += 1;
                    }
                    if !found {
                        return false;
                    }
                },
                None => {},
            }
            i += 1;
        }
        let ghost ds = self.dependencies@;
        let m = self.dependencies.len();
        let mut i: usize = 0;
        while i < m
            invariant
                m == ds.len(),
                ds == self.dependencies@,
                i <= m,
                forall|a: int, b: int|
                    0 <= a < i && 0 <= b < m && a != b && #[trigger] ds[a].from_task == #[trigger] ds[b].from_task
                        ==> ds[a].to_task != ds[b].to_task,
            decreases m - i,
        {
            let mut j: usize = 0;
            while j < m
                invariant
                    m == ds.len(),
                    ds == self.dependencies@,
                    i < m,
                    j <= m,
                    forall|b: int| 0 <= b < j && b != i && ds[i as int].from_task == #[trigger] ds[b].from_task
                        ==> ds[i as int].to_task != ds[b].to_task,
                decreases m - j,
            {
                if j != i && self.dependencies[j].from_task == self.dependencies[i].from_task
                    && self.dependencies[j].to_task == self.dependencies[i].to_task {
                    return false;
                }
                j += 1;
            }
            i += 1;
        }
        true
    }

    /// Positions of the tasks that task `me` may be given as parent.
    pub fn parent_candidates(&self, me: u128) -> (r: Vec<usize>)
        ensures
            forall|k: int| 0 <= k < r@.len() ==> #[trigger] r@[k] < self.tasks@.len() && parent_candidate(me, self.tasks@[r@[k] as int]),
            forall|a: int, b: int| 0 <= a < b < r@.len() ==> #[trigger] r@[a] < #[trigger] r@[b],
            forall|i: int| 0 <= i < self.tasks@.len() && parent_candidate(me, self.tasks@[i]) ==> #[trigger] r@.contains(i as usize),
    {
        let ghost ts = self.tasks@;
        let mut out: Vec<usize> = Vec::new();
        let mut i: usize = 0;
        while i < self.tasks.len()
            invariant
                i <= ts.len(),
                ts == self.tasks@,
                forall|k: int| 0 <= k < out@.len() ==> #[trigger] out@[k] < i && parent_candidate(me, ts[out@[k] as int]),
                forall|a: int, b: int| 0 <= a < b < out@.len() ==> #[trigger] out@[a] < #[trigger] out@[b],
                forall|j: int| 0 <= j < i && parent_candidate(me, ts[j]) ==> #[trigger] out@.contains(j as usize),
            decreases ts.len() - i,
        {
            let t = &self.tasks[i];
            let ok = t.id != me && t.parent_id != Some(me) && t.parent_id.is_none();
            let ghost before = out@;
            if ok {
                out.push(i);
            }
            proof {
                assert forall|j: int| 0 <= j < i + 1 && parent_candidate(me, ts[j]) implies #[trigger] out@.contains(j as usize) by {
                    if j < i {
                        assert(before.contains(j as usize));
                        let m = choose|m: int| 0 <= m < before.len() && before[m] == j as usize;
                        assert(out@[m] == j as usize);
                    } else {
                        assert(out@[out@.len() - 1] == i);
                    }
                }
            }
            i += 1;
        }
        out
    }

    fn joined_exec(&self, a: u128, b: u128) -> (r: bool)
        ensures
            r == joined(self.dependencies@, a, b),
    {
        let mut i: usize = 0;
        while i < self.dependencies.len()
            invariant
                i <= self.dependencies@.len(),
                forall|k: int| 0 <= k < i ==> !((#[trigger] self.dependencies@[k]).from_task == a && self.dependencies@[k].to_task == b
                    || self.dependencies@[k].from_task == b && self.dependencies@[k].to_task == a),
            decreases self.dependencies@.len() - i,
        {
            let d = self.dependencies[i];
            if d.from_task == a && d.to_task == b || d.from_task == b && d.to_task == a {
                return true;
            }
            i += 1;
        }
        false
    }

    /// Positions of the tasks that the task at `index` may be newly linked to.
    pub fn link_candidates(&self, index: usize) -> (r: Vec<usize>)
        requires
            index < self.tasks@.len(),
        ensures
            forall|k: int| 0 <= k < r@.len() ==> #[trigger] r@[k] < self.tasks@.len() && link_candidate(
                self.tasks@,
                self.dependencies@,
                self.tasks@[index as int],
                self.tasks@[r@[k] as int],
            ),
            forall|a: int, b: int| 0 <= a < b < r@.len() ==> #[trigger] r@[a] < #[trigger] r@[b],
            forall|i: int| 0 <= i < self.tasks@.len() && link_candidate(self.tasks@, self.dependencies@, self.tasks@[index as int], self.tasks@[i])
                ==> #[trigger] r@.contains(i as usize),
    {
        let ghost ts = self.tasks@;
        let ghost ds = self.dependencies@;
        let me_id = self.tasks[index].id;
        let me_parent = self.tasks[index].parent_id;
        let mut out: Vec<usize> = Vec::new();
        let mut i: usize = 0;
        while i < self.tasks.len()
            invariant
                i <= ts.len(),
                ts == self.tasks@,
                ds == self.dependencies@,
                index < ts.len(),
                me_id == ts[index as int].id,
                me_parent == ts[index as int].parent_id,
                forall|k: int| 0 <= k < out@.len() ==> #[trigger] out@[k] < i && link_candidate(ts, ds, ts[index as int], ts[out@[k] as int]),
                forall|a: int, b: int| 0 <= a < b < out@.len() ==> #[trigger] out@[a] < #[trigger] out@[b],
                forall|j: int| 0 <= j < i && link_candidate(ts, ds, ts[index as int], ts[j]) ==> #[trigger] out@.contains(j as usize),
            decreases ts.len() - i,
        {
            let tid = self.tasks[i].id;
            let tparent = self.tasks[i].parent_id;
            let same_level = match me_parent {
                Some(p) => tparent == Some(p),
                None => tparent.is_none(),
            };
            let ok = tid != me_id && same_level && !self.joined_exec(me_id, tid) && !self.has_children(tid);
            let ghost before = out@;
            if ok {
                out.push(i);
            }
            proof {
                assert forall|j: int| 0 <= j < i + 1 && link_candidate(ts, ds, ts[index as int], ts[j]) implies #[trigger] out@.contains(j as usize) by {
                    if j < i {
                        assert(before.contains(j as usize));
                        let m = choose|m: int| 0 <= m < before.len() && before[m] == j as usize;
                        assert(out@[m] == j as usize);
                    } else {
                        assert(out@[out@.len() - 1] == i);
                    }
                }
            }
            i += 1;
        }
        out
    }

    /// Gives the task at `index` a new parent, or none. Refused, with nothing
    /// changed, when that would nest the hierarchy deeper than one level:
    /// the new parent must be another top-level task, and a task with
    /// children cannot become a child. Returns whether the change was made.
    pub fn set_parent(&mut self, index: usize, parent: Option<u128>) -> (r: bool)
        requires
            old(self).wf(),
            index < old(self).tasks@.len(),
        ensures
            final(self).wf(),
            r == match parent {
                None => true,
                Some(p) => p != old(self).tasks@[index as int].id && is_root_id(old(self).tasks@, p)
                    && !has_children_spec(old(self).tasks@, old(self).tasks@[index as int].id),
            },
            r ==> final(self).tasks@ == old(self).tasks@.update(
                index as int,
                Task { parent_id: parent, ..old(self).tasks@[index as int] },
            ),
            !r ==> final(self).tasks@ == old(self).tasks@,
            final(self).dependencies == old(self).dependencies,
            final(self).name == old(self).name,
            final(self).created == old(self).created,
            final(self).modified == old(self).modified,
    {
        let ghost ts = self.tasks@;
        let me = self.tasks[index].id;
        if let Some(p) = parent {
            if p == me || self.has_children(me) {
                return false;
            }
            match self.find_task(p) {
                None => {
                    return false;
                },
                Some(k) => {
                    if self.tasks[k].parent_id.is_some() {
                        proof {
                            assert forall|m: int| 0 <= m < ts.len() && #[trigger] ts[m].id == p implies ts[m].parent_id is Some by {
                                if m != k {
                                    assert(ts[m].id != ts[k as int].id);
                                }
                            }
                        }
                        return false;
                    }
                    proof {
                        assert(is_root_id(ts, p)) by {
                            assert(ts[k as int].id == p);
                        }
                    }
                },
            }
        }
        let mut t = self.tasks[index].duplicate();
        t.parent_id = parent;
        self.tasks.set(index, t);
        proof {
            let n = self.tasks@;
            assert forall|a: int| 0 <= a < n.len() implies (#[trigger] n[a]).wf() by {
                assert(ts[a].wf());
            }
            assert forall|a: int, b: int| 0 <= a < n.len() && 0 <= b < n.len() && a != b implies #[trigger] n[a].id
                != #[trigger] n[b].id by {
                assert(ts[a].id != ts[b].id);
            }
            assert forall|a: int| 0 <= a < n.len() implies match (#[trigger] n[a]).parent_id {
                Some(q) => is_root_id(n, q),
                None => true,
            } by {
                if let Some(q) = n[a].parent_id {
                    assert(is_root_id(ts, q)) by {
                        if a != index {
                            assert(n[a] == ts[a]);
                        }
                    }
                    let k = choose|k: int| 0 <= k < ts.len() && #[trigger] ts[k].id == q && ts[k].parent_id is None;
                    if k == index && a != index {
                        assert(is_child_of(ts[a], ts[index as int].id));
                    }
                    assert(n[k].id == ts[k].id);
                }
            }
        }
        true
    }

    /// Deletes task `id` together with its children, and every dependency
    /// that touches any of them.
    pub fn delete_task(&mut self, id: u128)
        requires
            old(self).wf(),
        ensures
            final(self).wf(),
            final(self).tasks@ == old(self).tasks@.filter(survives(id)),
            final(self).dependencies@ == old(self).dependencies@.filter(dep_survives(old(self).tasks@, id)),
            forall|i: int| 0 <= i < final(self).tasks@.len() ==> (#[trigger] final(self).tasks@[i]).id != id
                && final(self).tasks@[i].parent_id != Some(id),
            forall|i: int| 0 <= i < final(self).dependencies@.len() ==> !deleted_id(
                old(self).tasks@,
                id,
                (#[trigger] final(self).dependencies@[i]).from_task,
            ) && !deleted_id(old(self).tasks@, id, final(self).dependencies@[i].to_task),
            final(self).name == old(self).name,
            final(self).created == old(self).created,
            final(self).modified == old(self).modified,
    {
        let ghost ts = self.tasks@;
        let ghost ds = self.dependencies@;
        let mut child_ids: Vec<u128> = Vec::new();
        let mut i: usize = 0;
        while i < self.tasks.len()
            invariant
                i <= ts.len(),
                ts == self.tasks@,
                forall|x: u128| child_ids@.contains(x) <==> exists|k: int|
                    0 <= k < i && #[trigger] ts[k].id == x && ts[k].parent_id == Some(id),
            decreases ts.len() - i,
        {
            let ghost before = child_ids@;
            if self.tasks[i].parent_id == Some(id) {
                child_ids.push(self.tasks[i].id);
            }
            proof {
                assert forall|x: u128| child_ids@.contains(x) <==> exists|k: int|
                    0 <= k < i + 1 && #[trigger] ts[k].id == x && ts[k].parent_id == Some(id) by {
                    if ts[i as int].parent_id == Some(id) {
                        assert(child_ids@ == before.push(ts[i as int].id));
                        if child_ids@.contains(x) {
                            let m = choose|m: int| 0 <= m < child_ids@.len() && child_ids@[m] == x;
                            if m < before.len() {
                                assert(before[m] == x);
                                assert(before.contains(x));
                            }
                        }
                        if before.contains(x) {
                            let m = choose|m: int| 0 <= m < before.len() && before[m] == x;
                            assert(child_ids@[m] == x);
                        }
                        assert(child_ids@[child_ids@.len() - 1] == ts[i as int].id);
                    }
                }
            }
            i += 1;
        }
        let mut kept_tasks: Vec<Task> = Vec::new();
        let mut i: usize = 0;
        while i < self.tasks.len()
            invariant
                i <= ts.len(),
                ts == self.tasks@,
                kept_tasks@ == ts.take(i as int).filter(survives(id)),
            decreases ts.len() - i,
        {
            let t = self.tasks[i].duplicate();
            let keep = t.id != id && t.parent_id != Some(id);
            if keep {
                kept_tasks.push(t);
            }
            proof {
                reveal(Seq::filter);
                assert(ts.take(i + 1).drop_last() =~= ts.take(i as int));
                assert(ts.take(i + 1).last() == ts[i as int]);
                assert(survives(id)(ts[i as int]) == keep);
            }
            i += 1;
        }
        let mut kept_deps: Vec<Dependency> = Vec::new();
        let mut i: usize = 0;
        while i < self.dependencies.len()
            invariant
                i <= ds.len(),
                ds == self.dependencies@,
                forall|x: u128| child_ids@.contains(x) <==> is_child_id(ts, id, x),
                kept_deps@ == ds.take(i as int).filter(dep_survives(ts, id)),
            decreases ds.len() - i,
        {
            let d = self.dependencies[i];
            let gone_from = d.from_task == id || contains_id(&child_ids, d.from_task);
            let gone_to = d.to_task == id || contains_id(&child_ids, d.to_task);
            if !gone_from && !gone_to {
                kept_deps.push(d);
            }
            proof {
                reveal(Seq::filter);
                assert(ds.take(i + 1).drop_last() =~= ds.take(i as int));
                assert(ds.take(i + 1).last() == d);
                assert(dep_survives(ts, id)(d) == (!gone_from && !gone_to));
            }
            i += 1;
        }
        proof {
            assert(ts.take(ts.len() as int) =~= ts);
            assert(ds.take(ds.len() as int) =~= ds);
            lemma_filter_keeps_tasks(ts, survives(id));
            lemma_delete_keeps_hierarchy(ts, id);
            lemma_filter_keeps_pairs_unique(ds, dep_survives(ts, id));
            let nt = ts.filter(survives(id));
            let nd = ds.filter(dep_survives(ts, id));
            assert forall|i: int| 0 <= i < nt.len() implies (#[trigger] nt[i]).id != id && nt[i].parent_id != Some(id) by {
                ts.lemma_filter_pred(survives(id), i);
            }
            assert forall|i: int| 0 <= i < nd.len() implies !deleted_id(ts, id, (#[trigger] nd[i]).from_task)
                && !deleted_id(ts, id, nd[i].to_task) by {
                ds.lemma_filter_pred(dep_survives(ts, id), i);
            }
        }
        self.tasks = kept_tasks;
        self.dependencies = kept_deps;
    }
}

pub(crate) proof fn lemma_filter_keeps_pairs_unique(ds: Seq<Dependency>, pred: spec_fn(Dependency) -> bool)
    requires
        pairs_unique(ds),
    ensures
        pairs_unique(ds.filter(pred)),
    decreases ds.len(),
{
    reveal(Seq::filter);
    if ds.len() > 0 {
        let init = ds.drop_last();
        assert(pairs_unique(init)) by {
            assert forall|i: int, j: int|
                0 <= i < init.len() && 0 <= j < init.len() && i != j && #[trigger] init[i].from_task
                    == #[trigger] init[j].from_task implies init[i].to_task != init[j].to_task by {
                assert(init[i] == ds[i] && init[j] == ds[j]);
            }
        }
        lemma_filter_keeps_pairs_unique(init, pred);
        let sub = init.filter(pred);
        if pred(ds.last()) {
            let n = sub.push(ds.last());
            assert forall|i: int, j: int|
                0 <= i < n.len() && 0 <= j < n.len() && i != j && #[trigger] n[i].from_task == #[trigger] n[j].from_task
                    implies n[i].to_task != n[j].to_task by {
                if i < sub.len() && j < sub.len() {
                    assert(n[i] == sub[i] && n[j] == sub[j]);
                } else {
                    let k = if i < sub.len() { i } else { j };
                    assert(n[k] == sub[k]);
                    assert(sub.contains(sub[k]));
                    init.lemma_filter_contains_rev(pred, sub[k]);
                    let m = choose|m: int| 0 <= m < init.len() && init[m] == sub[k];
                    assert(ds[m] == init[m]);
                    assert(ds[ds.len() - 1] == ds.last());
                }
            }
        }
    }
}

/// After deleting a task (and its children), rolling up leaves every
/// remaining summary task spanning exactly from its earliest to its latest
/// remaining child, with their duration-weighted progress, whatever their order.
pub proof fn lemma_rollup_after_delete(ts: Seq<Task>, id: u128, i: int, reordered: Seq<Task>)
    requires
        tasks_wf(ts),
        ids_unique(ts),
        0 <= i < ts.filter(survives(id)).len(),
        has_children_spec(ts.filter(survives(id)), ts.filter(survives(id))[i].id),
        reordered.to_multiset() == children_of(ts.filter(survives(id)), ts.filter(survives(id))[i].id).to_multiset(),
    ensures
        ({
            let kept = ts.filter(survives(id));
            let cs = children_of(kept, kept[i].id);
            let r = rollup_spec(kept)[i];
            &&& forall|k: int| 0 <= k < cs.len() ==> r.start <= (#[trigger] cs[k]).start && cs[k].end <= r.end
            &&& exists|k: int| 0 <= k < cs.len() && (#[trigger] cs[k]).start == r.start
            &&& exists|k: int| 0 <= k < cs.len() && (#[trigger] cs[k]).end == r.end
            &&& r.progress == rolled_progress(totals_of(cs))
            &&& r.start == totals_of(reordered).1 && r.end == totals_of(reordered).2
            &&& r.progress == rolled_progress(totals_of(reordered))
        }),
{
    lemma_filter_keeps_tasks(ts, survives(id));
    crate::rollup::lemma_rollup_correct(ts.filter(survives(id)), i, reordered);
}

} // verus!
