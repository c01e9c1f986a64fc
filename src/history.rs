use vstd::prelude::*;

use crate::task::{Dependency, Task};

verus! {

/// How many snapshots each stack keeps by default.
pub const DEFAULT_MAX_DEPTH: usize = 100;

/// A copy of the whole editable state.
#[derive(Debug)]
pub struct Snapshot {
    pub tasks: Vec<Task>,
    pub dependencies: Vec<Dependency>,
}

/// The contents of a snapshot.
pub type SnapView = (Seq<Task>, Seq<Dependency>);

impl Snapshot {
    pub open spec fn view_snap(&self) -> SnapView {
        (self.tasks@, self.dependencies@)
    }
}

/// Pushes `s` onto `stack`, dropping the oldest entry when the stack would
/// grow beyond `max`.
pub open spec fn bounded_push(stack: Seq<SnapView>, s: SnapView, max: nat) -> Seq<SnapView> {
    let p = stack.push(s);
    if p.len() > max {
        p.subrange(1, p.len() as int)
    } else {
        p
    }
}

/// Undo and redo stacks of snapshots, most recent last.
#[derive(Debug)]
pub struct UndoHistory {
    pub undo_stack: Vec<Snapshot>,
    pub redo_stack: Vec<Snapshot>,
    pub max_depth: usize,
}

pub open spec fn stack_view(v: Seq<Snapshot>) -> Seq<SnapView> {
    v.map_values(|s: Snapshot| s.view_snap())
}

/// The stacks after recording `s` before a change: `s` goes on the undo
/// stack and the redo stack empties.
pub open spec fn push_spec(undo: Seq<SnapView>, redo: Seq<SnapView>, s: SnapView, max: nat) -> (
    Seq<SnapView>,
    Seq<SnapView>,
) {
    (bounded_push(undo, s, max), Seq::empty())
}

/// Undo from state `current`: the stacks afterwards and the state to
/// install, if the undo stack held one.
pub open spec fn undo_spec(undo: Seq<SnapView>, redo: Seq<SnapView>, current: SnapView, max: nat) -> (
    Seq<SnapView>,
    Seq<SnapView>,
    Option<SnapView>,
) {
    if undo.len() == 0 {
        (undo, redo, None)
    } else {
        (undo.drop_last(), bounded_push(redo, current, max), Some(undo.last()))
    }
}

/// Redo from state `current`: the mirror of `undo_spec`.
pub open spec fn redo_spec(undo: Seq<SnapView>, redo: Seq<SnapView>, current: SnapView, max: nat) -> (
    Seq<SnapView>,
    Seq<SnapView>,
    Option<SnapView>,
) {
    if redo.len() == 0 {
        (undo, redo, None)
    } else {
        (bounded_push(undo, current, max), redo.drop_last(), Some(redo.last()))
    }
}

/// An exact copy of a task list.
pub fn clone_tasks(ts: &Vec<Task>) -> (r: Vec<Task>)
    ensures
        r@ == ts@,
{
    let mut out: Vec<Task> = Vec::new();
    let mut i: usize = 0;
    while i < ts.len()
        invariant
            i <= ts@.len(),
            out@ == ts@.take(i as int),
        decreases ts@.len() - i,
    {
        out.push(ts[i].duplicate());
        proof {
            assert(out@ =~= ts@.take(i + 1));
        }
        i += 1;
    }
    proof {
        assert(ts@.take(ts@.len() as int) =~= ts@);
    }
    out
}

/// An exact copy of a dependency list.
pub fn clone_dependencies(ds: &Vec<Dependency>) -> (r: Vec<Dependency>)
    ensures
        r@ == ds@,
{
    let mut out: Vec<Dependency> = Vec::new();
    let mut i: usize = 0;
    while i < ds.len()
        invariant
            i <= ds@.len(),
            out@ == ds@.take(i as int),
        decreases ds@.len() - i,
    {
        out.push(ds[i]);
        proof {
            assert(out@ =~= ds@.take(i + 1));
        }
        i += 1;
    }
    proof {
        assert(ds@.take(ds@.len() as int) =~= ds@);
    }
    out
}

fn push_bounded(stack: &mut Vec<Snapshot>, s: Snapshot, max: usize)
    requires
        old(stack)@.len() <= max,
    ensures
        stack_view(final(stack)@) == bounded_push(stack_view(old(stack)@), s.view_snap(), max as nat),
        final(stack)@.len() <= max,
{
    let ghost before = stack_view(stack@);
    stack.push(s);
    proof {
        assert(stack_view(stack@) =~= before.push(s.view_snap()));
    }
    if stack.len() > max {
        let ghost pushed = stack@;
        let _ = stack.remove(0);
        proof {
            assert(stack_view(stack@) =~= stack_view(pushed).subrange(1, pushed.len() as int));
        }
    }
}

impl UndoHistory {
    pub open spec fn wf(&self) -> bool {
        &&& self.undo_stack@.len() <= self.max_depth
        &&& self.redo_stack@.len() <= self.max_depth
    }

    pub open spec fn undo_view(&self) -> Seq<SnapView> {
        stack_view(self.undo_stack@)
    }

    pub open spec fn redo_view(&self) -> Seq<SnapView> {
        stack_view(self.redo_stack@)
    }

    /// Empty stacks holding up to `DEFAULT_MAX_DEPTH` snapshots each.
    pub fn new() -> (r: UndoHistory)
        ensures
            r.wf(),
            r.undo_view().len() == 0,
            r.redo_view().len() == 0,
            r.max_depth == DEFAULT_MAX_DEPTH,
    {
        UndoHistory { undo_stack: Vec::new(), redo_stack: Vec::new(), max_depth: DEFAULT_MAX_DEPTH }
    }

    /// Empty stacks holding up to `max_depth` snapshots each.
    pub fn with_max_depth(max_depth: usize) -> (r: UndoHistory)
        ensures
            r.wf(),
            r.undo_view().len() == 0,
            r.redo_view().len() == 0,
            r.max_depth == max_depth,
    {
        UndoHistory { undo_stack: Vec::new(), redo_stack: Vec::new(), max_depth }
    }

    /// Records the state before a change.
    pub fn push(&mut self, tasks: &Vec<Task>, dependencies: &Vec<Dependency>)
        requires
            old(self).wf(),
        ensures
            final(self).wf(),
            final(self).max_depth == old(self).max_depth,
            (final(self).undo_view(), final(self).redo_view()) == push_spec(
                old(self).undo_view(),
                old(self).redo_view(),
                (tasks@, dependencies@),
                old(self).max_depth as nat,
            ),
    {
        let snap = Snapshot { tasks: clone_tasks(tasks), dependencies: clone_dependencies(dependencies) };
        push_bounded(&mut self.undo_stack, snap, self.max_depth);
        self.redo_stack = Vec::new();
        proof {
            assert(self.redo_view() =~= Seq::<SnapView>::empty());
        }
    }

    /// Steps back: returns the latest recorded state and saves `tasks` and
    /// `dependencies`, the state being left, for redo. Nothing happens when
    /// there is nothing to undo.
    pub fn undo(&mut self, tasks: &Vec<Task>, dependencies: &Vec<Dependency>) -> (r: Option<Snapshot>)
        requires
            old(self).wf(),
        ensures
            final(self).wf(),
            final(self).max_depth == old(self).max_depth,
            ({
                let (u, d, got) = undo_spec(
                    old(self).undo_view(),
                    old(self).redo_view(),
                    (tasks@, dependencies@),
                    old(self).max_depth as nat,
                );
                &&& final(self).undo_view() == u
                &&& final(self).redo_view() == d
                &&& match (r, got) {
                    (None, None) => true,
                    (Some(s), Some(g)) => s.view_snap() == g,
                    _ => false,
                }
            }),
    {
        if self.undo_stack.len() == 0 {
            return None;
        }
        let ghost before = self.undo_stack@;
        let snap = self.undo_stack.pop().unwrap();
        proof {
            assert(stack_view(self.undo_stack@) =~= stack_view(before).drop_last());
        }
        let current = Snapshot { tasks: clone_tasks(tasks), dependencies: clone_dependencies(dependencies) };
        push_bounded(&mut self.redo_stack, current, self.max_depth);
        Some(snap)
    }

    /// Steps forward again: returns the latest undone state and saves
    /// `tasks` and `dependencies` for undo. Nothing happens when there is
    /// nothing to redo.
    pub fn redo(&mut self, tasks: &Vec<Task>, dependencies: &Vec<Dependency>) -> (r: Option<Snapshot>)
        requires
            old(self).wf(),
        ensures
            final(self).wf(),
            final(self).max_depth == old(self).max_depth,
            ({
                let (u, d, got) = redo_spec(
                    old(self).undo_view(),
                    old(self).redo_view(),
                    (tasks@, dependencies@),
                    old(self).max_depth as nat,
                );
                &&& final(self).undo_view() == u
                &&& final(self).redo_view() == d
                &&& match (r, got) {
                    (None, None) => true,
                    (Some(s), Some(g)) => s.view_snap() == g,
                    _ => false,
                }
            }),
    {
        if self.redo_stack.len() == 0 {
            return None;
        }
        let ghost before = self.redo_stack@;
        let snap = self.redo_stack.pop().unwrap();
        proof {
            assert(stack_view(self.redo_stack@) =~= stack_view(before).drop_last());
        }
        let current = Snapshot { tasks: clone_tasks(tasks), dependencies: clone_dependencies(dependencies) };
        push_bounded(&mut self.undo_stack, current, self.max_depth);
        Some(snap)
    }

    /// Forgets all recorded states.
    pub fn clear(&mut self)
        ensures
            final(self).wf(),
            final(self).undo_view().len() == 0,
            final(self).redo_view().len() == 0,
            final(self).max_depth == old(self).max_depth,
    {
        self.undo_stack = Vec::new();
        self.redo_stack = Vec::new();
    }

    /// Whether there is a state to undo to.
    pub fn can_undo(&self) -> (r: bool)
        ensures
            r == (self.undo_view().len() > 0),
    {
        self.undo_stack.len() > 0
    }

    /// Whether there is a state to redo to.
    pub fn can_redo(&self) -> (r: bool)
        ensures
            r == (self.redo_view().len() > 0),
    {
        self.redo_stack.len() > 0
    }
}

/// Recording a state, changing it, and undoing gives back exactly the
/// recorded state; redoing then gives back exactly the changed state.
pub proof fn lemma_undo_redo_round_trip(
    undo: Seq<SnapView>,
    redo: Seq<SnapView>,
    before: SnapView,
    after: SnapView,
    max: nat,
)
    requires
        max >= 1,
        undo.len() <= max,
    ensures
        ({
            let (u1, r1) = push_spec(undo, redo, before, max);
            let (u2, r2, restored) = undo_spec(u1, r1, after, max);
            let (u3, r3, redone) = redo_spec(u2, r2, before, max);
            restored == Some(before) && redone == Some(after)
        }),
{
    let (u1, r1) = push_spec(undo, redo, before, max);
    assert(u1.len() > 0 && u1.last() == before);
    let (u2, r2, restored) = undo_spec(u1, r1, after, max);
    assert(r2.len() > 0 && r2.last() == after);
}

} // verus!
