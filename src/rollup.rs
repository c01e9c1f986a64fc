use vstd::prelude::*;

use crate::project::{has_children_spec, hierarchy_ok, ids_unique, is_child_of, is_root_id, tasks_wf};
use crate::task::Task;

verus! {

/// Running totals over the children of a summary task: how many, earliest
/// start, latest end, total duration, progress weighted by duration, and
/// plain progress sum.
pub type Totals = (int, int, int, int, int, int);

pub open spec fn totals_start() -> Totals {
    (0, i32::MAX as int, i32::MIN as int, 0, 0, 0)
}

pub open spec fn add_to_totals(acc: Totals, t: Task) -> Totals {
    (
        acc.0 + 1,
        if t.start < acc.1 { t.start as int } else { acc.1 },
        if t.end > acc.2 { t.end as int } else { acc.2 },
        acc.3 + t.duration_spec(),
        acc.4 + t.progress * t.duration_spec(),
        acc.5 + t.progress,
    )
}

pub open spec fn totals_step() -> spec_fn(Totals, Task) -> Totals {
    |acc: Totals, t: Task| add_to_totals(acc, t)
}

pub open spec fn child_pred(id: u128) -> spec_fn(Task) -> bool {
    |t: Task| t.parent_id == Some(id)
}

/// The children of task `id`, in sequence order.
pub open spec fn children_of(ts: Seq<Task>, id: u128) -> Seq<Task> {
    ts.filter(child_pred(id))
}

pub open spec fn totals_of(cs: Seq<Task>) -> Totals {
    cs.fold_left(totals_start(), totals_step())
}

/// Progress of a summary task: the mean of its children's progress weighted
/// by duration in days, rounded down; the plain mean when all children
/// last zero days.
pub open spec fn rolled_progress(tot: Totals) -> int {
    if tot.3 > 0 {
        tot.4 / tot.3
    } else {
        tot.5 / tot.0
    }
}

/// Task `t` of `ts` after rollup: a task with children takes the earliest
/// child start, the latest child end and the weighted progress, and is no
/// longer a milestone, since it spans its children; any other task is unchanged.
pub open spec fn rolled(ts: Seq<Task>, t: Task) -> Task {
    let tot = totals_of(children_of(ts, t.id));
    if tot.0 > 0 {
        Task {
            start: tot.1 as i32,
            end: tot.2 as i32,
            progress: rolled_progress(tot) as u32,
            is_milestone: false,
            ..t
        }
    } else {
        t
    }
}

/// The whole sequence after rollup.
pub open spec fn rollup_spec(ts: Seq<Task>) -> Seq<Task> {
    ts.map_values(|t: Task| rolled(ts, t))
}

pub(crate) proof fn lemma_totals_facts(cs: Seq<Task>)
    requires
        tasks_wf(cs),
    ensures
        totals_of(cs).0 == cs.len(),
        forall|k: int| 0 <= k < cs.len() ==> totals_of(cs).1 <= (#[trigger] cs[k]).start && cs[k].end <= totals_of(cs).2,
        cs.len() > 0 ==> exists|k: int| 0 <= k < cs.len() && (#[trigger] cs[k]).start == totals_of(cs).1,
        cs.len() > 0 ==> exists|k: int| 0 <= k < cs.len() && (#[trigger] cs[k]).end == totals_of(cs).2,
        cs.len() == 0 ==> totals_of(cs) == totals_start(),
        0 <= totals_of(cs).3 <= cs.len() * 0x1_0000_0000,
        0 <= totals_of(cs).4 <= 1000 * totals_of(cs).3,
        0 <= totals_of(cs).5 <= 1000 * cs.len(),
        i32::MIN <= totals_of(cs).1 <= i32::MAX,
        i32::MIN <= totals_of(cs).2 <= i32::MAX,
        cs.len() > 0 ==> totals_of(cs).1 <= totals_of(cs).2,
    decreases cs.len(),
{
    if cs.len() > 0 {
        let init = cs.drop_last();
        assert(tasks_wf(init)) by {
            assert forall|i: int| 0 <= i < init.len() implies (#[trigger] init[i]).wf() by {
                assert(init[i] == cs[i]);
            }
        }
        lemma_totals_facts(init);
        let last = cs.last();
        assert(last == cs[cs.len() - 1]);
        assert(last.wf());
        let a = totals_of(init);
        let p = last.progress as int;
        let d = last.duration_spec();
        assert(0 <= p * d <= 1000 * d) by (nonlinear_arith)
            requires
                0 <= p <= 1000,
                0 <= d,
        ;
        assert((cs.len() - 1) * 0x1_0000_0000 + 0x1_0000_0000 == cs.len() * 0x1_0000_0000) by (nonlinear_arith);
        assert forall|k: int| 0 <= k < cs.len() implies totals_of(cs).1 <= (#[trigger] cs[k]).start && cs[k].end
            <= totals_of(cs).2 by {
            if k < cs.len() - 1 {
                assert(init[k] == cs[k]);
            }
        }
        if init.len() == 0 {
            assert(cs[cs.len() - 1].start == totals_of(cs).1);
            assert(cs[cs.len() - 1].end == totals_of(cs).2);
        } else {
            if last.start < a.1 {
                assert(cs[cs.len() - 1].start == totals_of(cs).1);
            } else {
                let k = choose|k: int| 0 <= k < init.len() && (#[trigger] init[k]).start == a.1;
                assert(cs[k] == init[k]);
            }
            if last.end > a.2 {
                assert(cs[cs.len() - 1].end == totals_of(cs).2);
            } else {
                let k = choose|k: int| 0 <= k < init.len() && (#[trigger] init[k]).end == a.2;
                assert(cs[k] == init[k]);
            }
        }
    }
}

/// The rollup of a summary task does not depend on the order of its
/// children: any two orderings of the same children give the same totals.
pub proof fn lemma_totals_order_free(a: Seq<Task>, b: Seq<Task>)
    requires
        a.to_multiset() == b.to_multiset(),
    ensures
        totals_of(a) == totals_of(b),
{
    assert(vstd::seq_lib::commutative_foldl(totals_step())) by {
        assert forall|x: Task, y: Task, v: Totals| #[trigger] totals_step()(totals_step()(v, x), y) == totals_step()(
            totals_step()(v, y),
            x,
        ) by {}
    }
    vstd::seq_lib::lemma_fold_left_permutation(a, b, totals_step(), totals_start());
}

/// Rollup: a task with children spans exactly from the earliest child start
/// to the latest child end, carries the duration-weighted mean of the
/// children's progress, and gets the same values for any ordering of those
/// children.
pub proof fn lemma_rollup_correct(ts: Seq<Task>, i: int, reordered: Seq<Task>)
    requires
        tasks_wf(ts),
        0 <= i < ts.len(),
        has_children_spec(ts, ts[i].id),
        reordered.to_multiset() == children_of(ts, ts[i].id).to_multiset(),
    ensures
        ({
            let cs = children_of(ts, ts[i].id);
            let r = rollup_spec(ts)[i];
            &&& forall|k: int| 0 <= k < cs.len() ==> r.start <= (#[trigger] cs[k]).start && cs[k].end <= r.end
            &&& exists|k: int| 0 <= k < cs.len() && (#[trigger] cs[k]).start == r.start
            &&& exists|k: int| 0 <= k < cs.len() && (#[trigger] cs[k]).end == r.end
            &&& r.progress == rolled_progress(totals_of(cs))
            &&& totals_of(reordered) == totals_of(cs)
            &&& r.start == totals_of(reordered).1
            &&& r.end == totals_of(reordered).2
            &&& r.progress == rolled_progress(totals_of(reordered))
        }),
{
    let id = ts[i].id;
    let cs = children_of(ts, id);
    lemma_children_facts(ts, id);
    lemma_totals_facts(cs);
    lemma_totals_order_free(reordered, cs);
    let j = choose|j: int| 0 <= j < ts.len() && #[trigger] is_child_of(ts[j], id);
    assert(cs.contains(ts[j])) by {
        ts.lemma_filter_contains(child_pred(id), j);
    }
    assert(cs.len() > 0);
    let tot = totals_of(cs);
    lemma_rolled_progress_bound(tot);
}

pub(crate) proof fn lemma_rolled_progress_bound(tot: Totals)
    requires
        tot.0 > 0,
        0 <= tot.3,
        0 <= tot.4 <= 1000 * tot.3,
        0 <= tot.5 <= 1000 * tot.0,
    ensures
        0 <= rolled_progress(tot) <= 1000,
{
    if tot.3 > 0 {
        vstd::arithmetic::div_mod::lemma_div_is_ordered(tot.4, 1000 * tot.3, tot.3);
        vstd::arithmetic::div_mod::lemma_div_multiples_vanish(1000, tot.3);
        vstd::arithmetic::div_mod::lemma_div_pos_is_pos(tot.4, tot.3);
    } else {
        vstd::arithmetic::div_mod::lemma_div_is_ordered(tot.5, 1000 * tot.0, tot.0);
        vstd::arithmetic::div_mod::lemma_div_multiples_vanish(1000, tot.0);
        vstd::arithmetic::div_mod::lemma_div_pos_is_pos(tot.5, tot.0);
    }
}

pub(crate) proof fn lemma_children_facts(ts: Seq<Task>, id: u128)
    requires
        tasks_wf(ts),
    ensures
        tasks_wf(children_of(ts, id)),
        forall|k: int| 0 <= k < children_of(ts, id).len() ==> (#[trigger] children_of(ts, id)[k]).parent_id == Some(id),
{
    let cs = children_of(ts, id);
    assert forall|k: int| 0 <= k < cs.len() implies (#[trigger] cs[k]).wf() && cs[k].parent_id == Some(id) by {
        ts.lemma_filter_pred(child_pred(id), k);
        assert(cs.contains(cs[k]));
        ts.lemma_filter_contains_rev(child_pred(id), cs[k]);
    }
}

/// Totals over the children of `id` in `ts`, with the progress that they give.
pub(crate) fn child_totals(ts: &Vec<Task>, id: u128) -> (r: (usize, i32, i32, i128, i128, i128))
    requires
        tasks_wf(ts@),
    ensures
        (r.0 as int, r.1 as int, r.2 as int, r.3 as int, r.4 as int, r.5 as int) == totals_of(children_of(ts@, id)),
{
    let ghost s = ts@;
    let mut count: usize = 0;
    let mut min_s: i32 = i32::MAX;
    let mut max_e: i32 = i32::MIN;
    let mut weight: i128 = 0;
    let mut weighted: i128 = 0;
    let mut progress_sum: i128 = 0;
    let mut j: usize = 0;
    proof {
        reveal(Seq::filter);
        assert(s.take(0) =~= Seq::<Task>::empty());
    }
    while j < ts.len()
        invariant
            j <= s.len(),
            s == ts@,
            tasks_wf(s),
            count <= j,
            (count as int, min_s as int, max_e as int, weight as int, weighted as int, progress_sum as int) == totals_of(
                s.take(j as int).filter(child_pred(id)),
            ),
            0 <= weight <= count * 0x1_0000_0000,
            0 <= weighted <= 1000 * weight,
            0 <= progress_sum <= 1000 * count,
        decreases s.len() - j,
    {
        let ghost before = s.take(j as int).filter(child_pred(id));
        proof {
            reveal(Seq::filter);
            assert(s.take(j + 1).drop_last() =~= s.take(j as int));
            assert(s.take(j + 1).last() == s[j as int]);
        }
        let t = &ts[j];
        if t.parent_id == Some(id) {
            assert(t.wf());
            let d = t.end as i128 - t.start as i128;
            let p = t.progress as i128;
            proof {
                assert(0 <= p * d <= 1000 * d) by (nonlinear_arith)
                    requires
                        0 <= p <= 1000,
                        0 <= d,
                ;
                assert(count * 0x1_0000_0000 + 0x1_0000_0000 == (count + 1) * 0x1_0000_0000) by (nonlinear_arith);
                assert(before.push(*t).drop_last() =~= before);
            }
            count = count + 1;
            if t.start < min_s {
                min_s = t.start;
            }
            if t.end > max_e {
                max_e = t.end;
            }
            weight = weight + d;
            weighted = weighted + p * d;
            progress_sum = progress_sum + p;
        }
        j += 1;
    }
    proof {
        assert(s.take(s.len() as int) =~= s);
    }
    (count, min_s, max_e, weight, weighted, progress_sum)
}

/// The rolled-up copy of task `t`, given the totals over its children.
pub(crate) fn roll_task(t: &Task, tot: (usize, i32, i32, i128, i128, i128)) -> (r: Task)
    requires
        tot.0 > 0,
        0 <= tot.3,
        0 <= tot.4 <= 1000 * tot.3,
        0 <= tot.5 <= 1000 * tot.0,
    ensures
        r == (Task {
            start: tot.1,
            end: tot.2,
            progress: rolled_progress((tot.0 as int, tot.1 as int, tot.2 as int, tot.3 as int, tot.4 as int, tot.5 as int)) as u32,
            is_milestone: false,
            ..*t
        }),
{
    proof {
        lemma_rolled_progress_bound((tot.0 as int, tot.1 as int, tot.2 as int, tot.3 as int, tot.4 as int, tot.5 as int));
    }
    let progress = if tot.3 > 0 {
        tot.4 / tot.3
    } else {
        tot.5 / tot.0 as i128
    };
    let mut r = t.duplicate();
    r.start = tot.1;
    r.end = tot.2;
    r.progress = progress as u32;
    r.is_milestone = false;
    r
}

pub(crate) proof fn lemma_rollup_keeps_wf(ts: Seq<Task>)
    requires
        tasks_wf(ts),
        ids_unique(ts),
        hierarchy_ok(ts),
    ensures
        tasks_wf(rollup_spec(ts)),
        ids_unique(rollup_spec(ts)),
        hierarchy_ok(rollup_spec(ts)),
{
    let r = rollup_spec(ts);
    assert forall|i: int| 0 <= i < r.len() implies (#[trigger] r[i]).wf() && r[i].id == ts[i].id && r[i].parent_id
        == ts[i].parent_id by {
        let cs = children_of(ts, ts[i].id);
        lemma_children_facts(ts, ts[i].id);
        lemma_totals_facts(cs);
        if totals_of(cs).0 > 0 {
            lemma_rolled_progress_bound(totals_of(cs));
        }
    }
    assert forall|i: int, j: int| 0 <= i < r.len() && 0 <= j < r.len() && i != j implies #[trigger] r[i].id
        != #[trigger] r[j].id by {
        assert(r[i].id == ts[i].id && r[j].id == ts[j].id);
    }
    assert forall|i: int| 0 <= i < r.len() implies match (#[trigger] r[i]).parent_id {
        Some(p) => is_root_id(r, p),
        None => true,
    } by {
        assert(r[i].parent_id == ts[i].parent_id);
        if let Some(p) = ts[i].parent_id {
            let k = choose|k: int| 0 <= k < ts.len() && #[trigger] ts[k].id == p && ts[k].parent_id is None;
            assert(r[k].id == ts[k].id && r[k].parent_id == ts[k].parent_id);
        }
    }
}

proof fn lemma_filter_map_fixed(ts: Seq<Task>, id: u128)
    requires
        forall|k: int| 0 <= k < ts.len() && (#[trigger] ts[k]).parent_id == Some(id) ==> rolled(ts, ts[k]) == ts[k],
    ensures
        rollup_spec(ts).filter(child_pred(id)) == ts.filter(child_pred(id)),
{
    lemma_filter_map_fixed_prefix(ts, id, ts.len() as int);
    assert(ts.take(ts.len() as int) =~= ts);
    assert(rollup_spec(ts).take(ts.len() as int) =~= rollup_spec(ts));
}

proof fn lemma_filter_map_fixed_prefix(ts: Seq<Task>, id: u128, n: int)
    requires
        0 <= n <= ts.len(),
        forall|k: int| 0 <= k < ts.len() && (#[trigger] ts[k]).parent_id == Some(id) ==> rolled(ts, ts[k]) == ts[k],
    ensures
        rollup_spec(ts).take(n).filter(child_pred(id)) == ts.take(n).filter(child_pred(id)),
    decreases n,
{
    reveal(Seq::filter);
    let r = rollup_spec(ts);
    if n > 0 {
        lemma_filter_map_fixed_prefix(ts, id, n - 1);
        assert(r.take(n).drop_last() =~= r.take(n - 1));
        assert(ts.take(n).drop_last() =~= ts.take(n - 1));
        assert(r.take(n).last() == r[n - 1]);
        assert(ts.take(n).last() == ts[n - 1]);
        assert(r[n - 1] == rolled(ts, ts[n - 1]));
        assert(r[n - 1].parent_id == ts[n - 1].parent_id);
    } else {
        assert(r.take(0) =~= Seq::<Task>::empty());
        assert(ts.take(0) =~= Seq::<Task>::empty());
    }
}

/// Rollup is settled after one pass: rolling up an already rolled-up task
/// list changes nothing, so restoring a rolled-up snapshot and rolling it up
/// gives back exactly that snapshot.
pub proof fn lemma_rollup_idempotent(ts: Seq<Task>)
    requires
        tasks_wf(ts),
        ids_unique(ts),
        hierarchy_ok(ts),
    ensures
        rollup_spec(rollup_spec(ts)) == rollup_spec(ts),
{
    let r = rollup_spec(ts);
    assert forall|k: int| 0 <= k < ts.len() && (#[trigger] ts[k]).parent_id is Some implies rolled(ts, ts[k]) == ts[k] by {
        let c = ts[k];
        let cs = children_of(ts, c.id);
        lemma_children_facts(ts, c.id);
        lemma_totals_facts(cs);
        if cs.len() > 0 {
            assert(cs.contains(cs[0]));
            ts.lemma_filter_contains_rev(child_pred(c.id), cs[0]);
            let j = choose|j: int| 0 <= j < ts.len() && ts[j] == cs[0];
            assert(is_root_id(ts, c.id));
            let m = choose|m: int| 0 <= m < ts.len() && #[trigger] ts[m].id == c.id && ts[m].parent_id is None;
            assert(m != k);
            assert(ts[m].id != ts[k].id);
        }
    }
    assert forall|i: int| 0 <= i < r.len() implies #[trigger] rolled(r, r[i]) == r[i] by {
        let id = ts[i].id;
        assert(r[i].id == id);
        assert forall|k: int| 0 <= k < ts.len() && (#[trigger] ts[k]).parent_id == Some(id) implies rolled(ts, ts[k]) == ts[k] by {
            assert(ts[k].parent_id is Some);
        }
        lemma_filter_map_fixed(ts, id);
        assert(children_of(r, id) == children_of(ts, id));
    }
    assert(rollup_spec(r) =~= r);
}

} // verus!
