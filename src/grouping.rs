use vstd::prelude::*;

use crate::project::{hierarchy_ok, ids_unique, is_root_id, lemma_filter_keeps_tasks, tasks_wf};
use crate::rollup::{child_pred, children_of};
use crate::task::Task;

verus! {

/// Each child directly follows its parent or a sibling, so the children of
/// a parent form one block right after it.
pub open spec fn grouped(ts: Seq<Task>) -> bool {
    forall|i: int| 0 <= i < ts.len() && (#[trigger] ts[i]).parent_id is Some ==> i > 0 && (ts[i - 1].id
        == ts[i].parent_id->0 || ts[i - 1].parent_id == ts[i].parent_id)
}

pub open spec fn root_pred() -> spec_fn(Task) -> bool {
    |t: Task| t.parent_id is None
}

/// A top-level task followed by its children in their current order.
pub open spec fn group_block(ts: Seq<Task>, r: Task) -> Seq<Task> {
    seq![r] + children_of(ts, r.id)
}

/// The blocks of `roots`, one after the other.
pub open spec fn arrange(ts: Seq<Task>, roots: Seq<Task>) -> Seq<Task>
    decreases roots.len(),
{
    if roots.len() == 0 {
        Seq::empty()
    } else {
        arrange(ts, roots.drop_last()) + group_block(ts, roots.last())
    }
}

/// The grouped order: each top-level task in its current order, followed
/// by its children in their current order.
pub open spec fn sorted_grouped(ts: Seq<Task>) -> Seq<Task> {
    arrange(ts, ts.filter(root_pred()))
}

/// The top-level task that `t` is grouped under: itself, or its parent.
pub open spec fn home(t: Task) -> u128 {
    match t.parent_id {
        Some(p) => p,
        None => t.id,
    }
}

pub open spec fn all_roots(roots: Seq<Task>) -> bool {
    forall|k: int| 0 <= k < roots.len() ==> (#[trigger] roots[k]).parent_id is None
}

pub(crate) proof fn lemma_arrange_grouped(ts: Seq<Task>, roots: Seq<Task>)
    requires
        all_roots(roots),
    ensures
        grouped(arrange(ts, roots)),
    decreases roots.len(),
{
    if roots.len() > 0 {
        let init = roots.drop_last();
        assert(all_roots(init)) by {
            assert forall|k: int| 0 <= k < init.len() implies (#[trigger] init[k]).parent_id is None by {
                assert(init[k] == roots[k]);
            }
        }
        lemma_arrange_grouped(ts, init);
        let a = arrange(ts, init);
        let r = roots.last();
        assert(r == roots[roots.len() - 1]);
        let cs = children_of(ts, r.id);
        let b = group_block(ts, r);
        let n = a + b;
        assert forall|i: int| 0 <= i < n.len() && (#[trigger] n[i]).parent_id is Some implies i > 0 && (n[i - 1].id
            == n[i].parent_id->0 || n[i - 1].parent_id == n[i].parent_id) by {
            if i < a.len() {
                assert(n[i] == a[i] && n[i - 1] == a[i - 1]);
            } else if i == a.len() {
                assert(n[i] == r);
            } else {
                let k = i - a.len() - 1;
                assert(n[i] == cs[k]);
                ts.lemma_filter_pred(child_pred(r.id), k);
                if k == 0 {
                    assert(n[i - 1] == r);
                } else {
                    assert(n[i - 1] == cs[k - 1]);
                    ts.lemma_filter_pred(child_pred(r.id), k - 1);
                }
            }
        }
    }
}

pub(crate) proof fn lemma_arrange_members(ts: Seq<Task>, roots: Seq<Task>)
    requires
        all_roots(roots),
        forall|t: Task| #[trigger] roots.contains(t) ==> ts.contains(t),
    ensures
        forall|t: Task| #[trigger] arrange(ts, roots).contains(t) ==> ts.contains(t) && exists|k: int|
            0 <= k < roots.len() && #[trigger] roots[k].id == home(t),
    decreases roots.len(),
{
    if roots.len() > 0 {
        let init = roots.drop_last();
        assert forall|k: int| 0 <= k < init.len() implies (#[trigger] init[k]).parent_id is None by {
            assert(init[k] == roots[k]);
        }
        assert forall|t: Task| #[trigger] init.contains(t) implies ts.contains(t) by {
            let k = choose|k: int| 0 <= k < init.len() && init[k] == t;
            assert(roots[k] == t);
            assert(roots.contains(t));
        }
        lemma_arrange_members(ts, init);
        let a = arrange(ts, init);
        let r = roots.last();
        let l = roots.len() - 1;
        assert(r == roots[l]);
        assert(roots.contains(r));
        let cs = children_of(ts, r.id);
        let b = group_block(ts, r);
        assert forall|t: Task| #[trigger] (a + b).contains(t) implies ts.contains(t) && exists|k: int|
            0 <= k < roots.len() && #[trigger] roots[k].id == home(t) by {
            let i = choose|i: int| 0 <= i < (a + b).len() && (a + b)[i] == t;
            if i < a.len() {
                assert(a[i] == t);
                assert(a.contains(t));
                let k = choose|k: int| 0 <= k < init.len() && #[trigger] init[k].id == home(t);
                assert(roots[k] == init[k]);
            } else if i == a.len() {
                assert(t == r);
                assert(roots[l].id == home(t));
            } else {
                let k = i - a.len() - 1;
                assert(t == cs[k]);
                ts.lemma_filter_pred(child_pred(r.id), k);
                assert(cs.contains(t));
                ts.lemma_filter_contains_rev(child_pred(r.id), t);
                assert(roots[l].id == home(t));
            }
        }
    }
}

pub(crate) proof fn lemma_arrange_covers(ts: Seq<Task>, roots: Seq<Task>)
    ensures
        forall|k: int| 0 <= k < roots.len() ==> arrange(ts, roots).contains(#[trigger] roots[k]),
        forall|k: int, t: Task|
            0 <= k < roots.len() && children_of(ts, roots[k].id).contains(t) ==> #[trigger] arrange(ts, roots).contains(t)
                && #[trigger] roots[k].id == roots[k].id,
    decreases roots.len(),
{
    if roots.len() > 0 {
        let init = roots.drop_last();
        lemma_arrange_covers(ts, init);
        let a = arrange(ts, init);
        let r = roots.last();
        let l = roots.len() - 1;
        let b = group_block(ts, r);
        let n = a + b;
        assert forall|k: int| 0 <= k < roots.len() implies n.contains(#[trigger] roots[k]) by {
            if k < l {
                assert(init[k] == roots[k]);
                assert(a.contains(init[k]));
                let i = choose|i: int| 0 <= i < a.len() && a[i] == init[k];
                assert(n[i] == roots[k]);
            } else {
                assert(n[a.len() as int] == roots[k]);
            }
        }
        assert forall|k: int, t: Task|
            0 <= k < roots.len() && children_of(ts, roots[k].id).contains(t) implies #[trigger] n.contains(t)
                && #[trigger] roots[k].id == roots[k].id by {
            if k < l {
                assert(init[k] == roots[k]);
                assert(a.contains(t) && init[k].id == init[k].id);
                let i = choose|i: int| 0 <= i < a.len() && a[i] == t;
                assert(n[i] == t);
            } else {
                let cs = children_of(ts, r.id);
                assert(roots[k] == r);
                let j = choose|j: int| 0 <= j < cs.len() && cs[j] == t;
                assert(n[a.len() + 1 + j] == t);
            }
        }
    }
}

pub(crate) proof fn lemma_same_id_same_task(ts: Seq<Task>, a: Task, b: Task)
    requires
        ids_unique(ts),
        ts.contains(a),
        ts.contains(b),
        a.id == b.id,
    ensures
        a == b,
{
    let i = choose|i: int| 0 <= i < ts.len() && ts[i] == a;
    let j = choose|j: int| 0 <= j < ts.len() && ts[j] == b;
    if i != j {
        assert(ts[i].id != ts[j].id);
    }
}

pub(crate) proof fn lemma_arrange_unique(ts: Seq<Task>, roots: Seq<Task>)
    requires
        ids_unique(ts),
        ids_unique(roots),
        all_roots(roots),
        forall|t: Task| #[trigger] roots.contains(t) ==> ts.contains(t),
    ensures
        ids_unique(arrange(ts, roots)),
    decreases roots.len(),
{
    if roots.len() > 0 {
        let init = roots.drop_last();
        assert forall|k: int| 0 <= k < init.len() implies (#[trigger] init[k]).parent_id is None by {
            assert(init[k] == roots[k]);
        }
        assert forall|t: Task| #[trigger] init.contains(t) implies ts.contains(t) by {
            let k = choose|k: int| 0 <= k < init.len() && init[k] == t;
            assert(roots[k] == t);
            assert(roots.contains(t));
        }
        assert forall|i: int, j: int| 0 <= i < init.len() && 0 <= j < init.len() && i != j implies #[trigger] init[i].id
            != #[trigger] init[j].id by {
            assert(init[i] == roots[i] && init[j] == roots[j]);
        }
        lemma_arrange_unique(ts, init);
        lemma_arrange_members(ts, init);
        let a = arrange(ts, init);
        let r = roots.last();
        let l = roots.len() - 1;
        assert(r == roots[l]);
        assert(roots.contains(r));
        let cs = children_of(ts, r.id);
        lemma_filter_keeps_tasks_ids(ts, child_pred(r.id));
        let b = group_block(ts, r);
        let n = a + b;
        assert forall|x: int| 0 <= x < b.len() implies ts.contains(#[trigger] b[x]) && home(b[x]) == r.id by {
            if x > 0 {
                assert(b[x] == cs[x - 1]);
                ts.lemma_filter_pred(child_pred(r.id), x - 1);
                assert(cs.contains(cs[x - 1]));
                ts.lemma_filter_contains_rev(child_pred(r.id), cs[x - 1]);
            }
        }
        assert forall|i: int, j: int| 0 <= i < n.len() && 0 <= j < n.len() && i != j implies #[trigger] n[i].id
            != #[trigger] n[j].id by {
            if i < a.len() && j < a.len() {
                assert(n[i] == a[i] && n[j] == a[j]);
            } else if i >= a.len() && j >= a.len() {
                assert(n[i] == b[i - a.len()] && n[j] == b[j - a.len()]);
                if i - a.len() > 0 && j - a.len() > 0 {
                    assert(b[i - a.len()] == cs[i - a.len() - 1]);
                    assert(b[j - a.len()] == cs[j - a.len() - 1]);
                } else if i - a.len() == 0 {
                    assert(b[j - a.len()] == cs[j - a.len() - 1]);
                    ts.lemma_filter_pred(child_pred(r.id), j - a.len() - 1);
                    assert(r.parent_id is None);
                    if n[i].id == n[j].id {
                        lemma_same_id_same_task(ts, n[i], n[j]);
                    }
                } else {
                    assert(b[i - a.len()] == cs[i - a.len() - 1]);
                    ts.lemma_filter_pred(child_pred(r.id), i - a.len() - 1);
                    if n[i].id == n[j].id {
                        lemma_same_id_same_task(ts, n[i], n[j]);
                    }
                }
            } else {
                let (ai, bj) = if i < a.len() { (i, j - a.len()) } else { (j, i - a.len()) };
                assert(a.contains(a[ai]));
                let k = choose|k: int| 0 <= k < init.len() && #[trigger] init[k].id == home(a[ai]);
                assert(init[k] == roots[k]);
                if a[ai].id == b[bj].id {
                    lemma_same_id_same_task(ts, a[ai], b[bj]);
                    assert(roots[k].id == roots[l].id);
                }
            }
        }
    }
}

pub(crate) proof fn lemma_filter_keeps_tasks_ids(ts: Seq<Task>, pred: spec_fn(Task) -> bool)
    requires
        ids_unique(ts),
    ensures
        ids_unique(ts.filter(pred)),
    decreases ts.len(),
{
    reveal(Seq::filter);
    if ts.len() > 0 {
        let init = ts.drop_last();
        assert forall|i: int, j: int| 0 <= i < init.len() && 0 <= j < init.len() && i != j implies #[trigger] init[i].id
            != #[trigger] init[j].id by {
            assert(init[i] == ts[i] && init[j] == ts[j]);
        }
        lemma_filter_keeps_tasks_ids(init, pred);
        let sub = init.filter(pred);
        if pred(ts.last()) {
            let n = sub.push(ts.last());
            assert forall|i: int, j: int| 0 <= i < n.len() && 0 <= j < n.len() && i != j implies #[trigger] n[i].id
                != #[trigger] n[j].id by {
                if i < sub.len() && j < sub.len() {
                    assert(n[i] == sub[i] && n[j] == sub[j]);
                } else {
                    let k = if i < sub.len() { i } else { j };
                    assert(n[k] == sub[k]);
                    assert(sub.contains(sub[k]));
                    init.lemma_filter_contains_rev(pred, sub[k]);
                    let m = choose|m: int| 0 <= m < init.len() && init[m] == sub[k];
                    assert(ts[m] == init[m]);
                    assert(ts[ts.len() - 1] == ts.last());
                }
            }
        }
    }
}

pub(crate) proof fn lemma_sort_roots(ts: Seq<Task>)
    requires
        tasks_wf(ts),
        ids_unique(ts),
    ensures
        all_roots(ts.filter(root_pred())),
        ids_unique(ts.filter(root_pred())),
        forall|t: Task| #[trigger] ts.filter(root_pred()).contains(t) <==> ts.contains(t) && t.parent_id is None,
{
    let roots = ts.filter(root_pred());
    lemma_filter_keeps_tasks(ts, root_pred());
    assert forall|k: int| 0 <= k < roots.len() implies (#[trigger] roots[k]).parent_id is None by {
        ts.lemma_filter_pred(root_pred(), k);
    }
}

pub(crate) proof fn lemma_sort_contains(ts: Seq<Task>)
    requires
        tasks_wf(ts),
        ids_unique(ts),
        hierarchy_ok(ts),
    ensures
        forall|t: Task| #[trigger] sorted_grouped(ts).contains(t) <==> ts.contains(t),
{
    let roots = ts.filter(root_pred());
    let out = sorted_grouped(ts);
    lemma_sort_roots(ts);
    lemma_arrange_members(ts, roots);
    lemma_arrange_covers(ts, roots);
    assert forall|t: Task| #[trigger] ts.contains(t) implies out.contains(t) by {
        let i = choose|i: int| 0 <= i < ts.len() && ts[i] == t;
        match t.parent_id {
            None => {
                assert(roots.contains(t));
                let k = choose|k: int| 0 <= k < roots.len() && roots[k] == t;
                assert(out.contains(roots[k]));
            },
            Some(p) => {
                assert(is_root_id(ts, p));
                let j = choose|j: int| 0 <= j < ts.len() && #[trigger] ts[j].id == p && ts[j].parent_id is None;
                assert(ts.contains(ts[j]));
                assert(roots.contains(ts[j]));
                let k = choose|k: int| 0 <= k < roots.len() && roots[k] == ts[j];
                ts.lemma_filter_contains(child_pred(p), i);
                assert(children_of(ts, roots[k].id).contains(t));
                assert(out.contains(t) && roots[k].id == roots[k].id);
            },
        }
    }
}

/// After the grouped sort, every child sits in one block right after its
/// parent, whatever order the tasks came in; the sort keeps exactly the
/// tasks it was given, each once, and keeps the project's invariant.
pub proof fn lemma_sort_grouped(ts: Seq<Task>)
    requires
        tasks_wf(ts),
        ids_unique(ts),
        hierarchy_ok(ts),
    ensures
        grouped(sorted_grouped(ts)),
        forall|t: Task| #[trigger] sorted_grouped(ts).contains(t) <==> ts.contains(t),
        tasks_wf(sorted_grouped(ts)),
        ids_unique(sorted_grouped(ts)),
        hierarchy_ok(sorted_grouped(ts)),
        sorted_grouped(ts).len() == ts.len(),
{
    let roots = ts.filter(root_pred());
    let out = sorted_grouped(ts);
    assert(grouped(out)) by {
        lemma_sort_roots(ts);
        lemma_arrange_grouped(ts, roots);
    }
    assert(ids_unique(out)) by {
        lemma_sort_roots(ts);
        lemma_arrange_unique(ts, roots);
    }
    assert(forall|t: Task| #[trigger] out.contains(t) <==> ts.contains(t)) by {
        lemma_sort_contains(ts);
    }
    assert(tasks_wf(out) && hierarchy_ok(out)) by {
        lemma_members_keep_wf(ts, out);
    }
    lemma_same_members_same_len(out, ts);
}

proof fn lemma_same_members_same_len(a: Seq<Task>, b: Seq<Task>)
    requires
        ids_unique(a),
        ids_unique(b),
        forall|t: Task| #[trigger] a.contains(t) <==> b.contains(t),
    ensures
        a.len() == b.len(),
{
    assert(a.no_duplicates()) by {
        assert forall|i: int, j: int| 0 <= i < a.len() && 0 <= j < a.len() && i != j implies a[i] != a[j] by {
            assert(a[i].id != a[j].id);
        }
    }
    assert(b.no_duplicates()) by {
        assert forall|i: int, j: int| 0 <= i < b.len() && 0 <= j < b.len() && i != j implies b[i] != b[j] by {
            assert(b[i].id != b[j].id);
        }
    }
    a.unique_seq_to_set();
    b.unique_seq_to_set();
    assert(a.to_set() =~= b.to_set());
}

pub(crate) proof fn lemma_members_keep_wf(ts: Seq<Task>, out: Seq<Task>)
    requires
        tasks_wf(ts),
        hierarchy_ok(ts),
        forall|t: Task| #[trigger] out.contains(t) <==> ts.contains(t),
    ensures
        tasks_wf(out),
        hierarchy_ok(out),
{
    assert forall|i: int| 0 <= i < out.len() implies (#[trigger] out[i]).wf() by {
        assert(out.contains(out[i]));
        let j = choose|j: int| 0 <= j < ts.len() && ts[j] == out[i];
    }
    assert forall|i: int| 0 <= i < out.len() implies match (#[trigger] out[i]).parent_id {
        Some(p) => is_root_id(out, p),
        None => true,
    } by {
        assert(out.contains(out[i]));
        let a = choose|a: int| 0 <= a < ts.len() && ts[a] == out[i];
        if let Some(p) = out[i].parent_id {
            assert(is_root_id(ts, p));
            let j = choose|j: int| 0 <= j < ts.len() && #[trigger] ts[j].id == p && ts[j].parent_id is None;
            assert(ts.contains(ts[j]));
            assert(out.contains(ts[j]));
            let b = choose|b: int| 0 <= b < out.len() && out[b] == ts[j];
            assert(out[b].id == p);
        }
    }
}

} // verus!
