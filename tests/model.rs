use gantt::history::UndoHistory;
use gantt::project::Project;
use gantt::session::GanttApp;
use gantt::task::{Dependency, DependencyKind, Side, Task, TaskColor, TaskPriority, PROGRESS_FULL};
use gantt::timeline::TimelineViewport;

// Day numbers for a run of January days.
const JAN_1: i32 = 738_886;

fn jan(day: i32) -> i32 {
    JAN_1 + day - 1
}

fn task(name: &str, start: i32, end: i32) -> Task {
    Task::new(name.to_string(), start, end)
}

fn child(name: &str, start: i32, end: i32, parent: &Task) -> Task {
    let mut t = task(name, start, end);
    t.parent_id = Some(parent.id);
    t
}

fn dep(from: &Task, to: &Task) -> Dependency {
    Dependency { from_task: from.id, to_task: to.id, kind: DependencyKind::FinishToStart }
}

fn project_with(tasks: Vec<Task>) -> Project {
    let mut p = Project::new("Test".to_string());
    p.tasks = tasks;
    p
}

#[test]
fn new_task_defaults() {
    let t = task("Write", jan(3), jan(7));
    assert_eq!(t.name, "Write");
    assert_eq!(t.start, jan(3));
    assert_eq!(t.end, jan(7));
    assert_eq!(t.progress, 0);
    assert_eq!(t.priority, TaskPriority::Unset);
    assert!(t.description.is_empty());
    assert_eq!(t.color, TaskColor { r: 70, g: 130, b: 180, a: 255 });
    assert!(!t.is_milestone);
    assert!(t.parent_id.is_none());
    assert!(!t.collapsed);
    assert_ne!(t.id, 0);
}

#[test]
fn new_task_with_end_before_start_is_clamped() {
    let t = task("Backwards", jan(9), jan(2));
    assert_eq!(t.start, jan(9));
    assert_eq!(t.end, jan(9));
}

#[test]
fn new_milestone_has_one_date() {
    let m = Task::new_milestone("Launch".to_string(), jan(20));
    assert!(m.is_milestone);
    assert_eq!(m.start, jan(20));
    assert_eq!(m.end, jan(20));
    assert_eq!(m.color, TaskColor { r: 255, g: 165, b: 0, a: 255 });
}

#[test]
fn fresh_ids_differ() {
    let a = task("A", jan(1), jan(2));
    let b = task("B", jan(1), jan(2));
    assert_ne!(a.id, b.id);
}

#[test]
fn milestone_toggle_collapses_dates() {
    let mut t = task("Review", jan(4), jan(9));
    t.set_milestone(true);
    assert!(t.is_milestone);
    assert_eq!(t.start, jan(4));
    assert_eq!(t.end, jan(4));
}

#[test]
fn milestone_date_edits_keep_dates_equal() {
    let mut t = task("Review", jan(4), jan(9));
    t.set_milestone(true);
    t.set_start(jan(12));
    assert_eq!((t.start, t.end), (jan(12), jan(12)));
    t.set_end(jan(2));
    assert_eq!((t.start, t.end), (jan(2), jan(2)));
}

#[test]
fn milestone_toggle_off_keeps_dates() {
    let mut t = Task::new_milestone("Gate".to_string(), jan(5));
    t.set_milestone(false);
    assert!(!t.is_milestone);
    t.set_end(jan(8));
    assert_eq!((t.start, t.end), (jan(5), jan(8)));
}

#[test]
fn start_edit_after_end_pushes_end() {
    let mut t = task("Build", jan(3), jan(6));
    t.set_start(jan(10));
    assert_eq!((t.start, t.end), (jan(10), jan(10)));
    t.set_start(jan(4));
    assert_eq!((t.start, t.end), (jan(4), jan(10)));
}

#[test]
fn end_edit_before_start_pulls_start() {
    let mut t = task("Build", jan(3), jan(6));
    t.set_end(jan(1));
    assert_eq!((t.start, t.end), (jan(1), jan(1)));
    t.set_end(jan(8));
    assert_eq!((t.start, t.end), (jan(1), jan(8)));
}

#[test]
fn progress_is_capped() {
    let mut t = task("Build", jan(3), jan(6));
    t.set_progress(1500);
    assert_eq!(t.progress, PROGRESS_FULL);
    t.set_progress(420);
    assert_eq!(t.progress, 420);
}

#[test]
fn duplicate_is_exact() {
    let mut t = task("Copy me", jan(3), jan(6));
    t.description = "details".to_string();
    t.progress = 250;
    let c = t.duplicate();
    assert_eq!(c.id, t.id);
    assert_eq!(c.name, t.name);
    assert_eq!(c.description, t.description);
    assert_eq!(c.progress, 250);
    assert_eq!(c.duration_days(), 3);
}

#[test]
fn kind_sides_and_labels() {
    assert_eq!(DependencyKind::FinishToStart.exit_side(), Side::Right);
    assert_eq!(DependencyKind::FinishToStart.enter_side(), Side::Left);
    assert_eq!(DependencyKind::StartToStart.exit_side(), Side::Left);
    assert_eq!(DependencyKind::StartToStart.enter_side(), Side::Left);
    assert_eq!(DependencyKind::FinishToFinish.exit_side(), Side::Right);
    assert_eq!(DependencyKind::FinishToFinish.enter_side(), Side::Right);
    assert_eq!(DependencyKind::StartToFinish.exit_side(), Side::Left);
    assert_eq!(DependencyKind::StartToFinish.enter_side(), Side::Right);
    assert_eq!(DependencyKind::FinishToStart.short_label(), "FS");
    assert_eq!(DependencyKind::StartToFinish.short_label(), "SF");
}

#[test]
fn palette_color_wraps() {
    let palette = vec![
        TaskColor { r: 1, g: 2, b: 3, a: 255 },
        TaskColor { r: 4, g: 5, b: 6, a: 255 },
    ];
    assert_eq!(gantt::task::task_color(&palette, 3), palette[1]);
    assert_eq!(gantt::task::task_color(&palette, 4), palette[0]);
    assert_eq!(gantt::task::task_color(&Vec::new(), 4), TaskColor { r: 70, g: 130, b: 180, a: 255 });
}

#[test]
fn rollup_weighted_example() {
    let parent = task("P", jan(20), jan(21));
    let mut a = child("A", jan(1), jan(5), &parent);
    a.progress = PROGRESS_FULL;
    let b = child("B", jan(5), jan(10), &parent);
    let mut p = project_with(vec![parent, a, b]);
    p.recalculate_parent_dates();
    assert_eq!(p.tasks[0].start, jan(1));
    assert_eq!(p.tasks[0].end, jan(10));
    // (4 * 1000 + 5 * 0) / 9, rounded down.
    assert_eq!(p.tasks[0].progress, 444);
    assert_eq!(p.tasks[1].progress, PROGRESS_FULL);
    assert_eq!(p.tasks[2].start, jan(5));
}

#[test]
fn rollup_same_for_any_child_order() {
    let parent = task("P", jan(20), jan(21));
    let mut a = child("A", jan(1), jan(5), &parent);
    a.progress = PROGRESS_FULL;
    let b = child("B", jan(5), jan(10), &parent);
    let mut c = child("C", jan(2), jan(3), &parent);
    c.progress = 500;
    let mut p1 = project_with(vec![parent.duplicate(), a.duplicate(), b.duplicate(), c.duplicate()]);
    let mut p2 = project_with(vec![parent.duplicate(), c, b, a]);
    p1.recalculate_parent_dates();
    p2.recalculate_parent_dates();
    assert_eq!(p1.tasks[0].start, p2.tasks[0].start);
    assert_eq!(p1.tasks[0].end, p2.tasks[0].end);
    assert_eq!(p1.tasks[0].progress, p2.tasks[0].progress);
    // (4 * 1000 + 5 * 0 + 1 * 500) / 10
    assert_eq!(p1.tasks[0].progress, 450);
}

#[test]
fn rollup_of_zero_length_children_uses_plain_mean() {
    let parent = task("P", jan(1), jan(3));
    let mut m1 = Task::new_milestone("M1".to_string(), jan(4));
    m1.parent_id = Some(parent.id);
    m1.progress = PROGRESS_FULL;
    let mut m2 = Task::new_milestone("M2".to_string(), jan(6));
    m2.parent_id = Some(parent.id);
    let mut p = project_with(vec![parent, m1, m2]);
    p.recalculate_parent_dates();
    assert_eq!((p.tasks[0].start, p.tasks[0].end), (jan(4), jan(6)));
    assert_eq!(p.tasks[0].progress, 500);
}

#[test]
fn rollup_turns_summary_milestone_into_span() {
    let mut parent = Task::new_milestone("Phase".to_string(), jan(1));
    parent.progress = 0;
    let c = child("C", jan(3), jan(8), &parent);
    let mut p = project_with(vec![parent, c]);
    p.recalculate_parent_dates();
    assert!(!p.tasks[0].is_milestone);
    assert_eq!((p.tasks[0].start, p.tasks[0].end), (jan(3), jan(8)));
}

#[test]
fn rollup_leaves_leaf_tasks_alone() {
    let t = task("Solo", jan(3), jan(8));
    let mut p = project_with(vec![t]);
    p.recalculate_parent_dates();
    assert_eq!((p.tasks[0].start, p.tasks[0].end, p.tasks[0].progress), (jan(3), jan(8), 0));
}

#[test]
fn grouped_sort_restores_blocks() {
    let ra = task("A", jan(1), jan(2));
    let rb = task("B", jan(1), jan(2));
    let a1 = child("a1", jan(1), jan(2), &ra);
    let a2 = child("a2", jan(1), jan(2), &ra);
    let b1 = child("b1", jan(1), jan(2), &rb);
    let ids = (ra.id, rb.id, a1.id, a2.id, b1.id);
    let mut p = project_with(vec![a1, rb, b1, ra, a2]);
    p.sort_tasks_grouped();
    let order: Vec<u128> = p.tasks.iter().map(|t| t.id).collect();
    assert_eq!(order, vec![ids.1, ids.4, ids.0, ids.2, ids.3]);
}

#[test]
fn grouped_sort_keeps_a_grouped_sequence() {
    let ra = task("A", jan(1), jan(2));
    let a1 = child("a1", jan(1), jan(2), &ra);
    let rb = task("B", jan(1), jan(2));
    let order_in: Vec<u128> = vec![ra.id, a1.id, rb.id];
    let mut p = project_with(vec![ra, a1, rb]);
    p.sort_tasks_grouped();
    let order: Vec<u128> = p.tasks.iter().map(|t| t.id).collect();
    assert_eq!(order, order_in);
}

#[test]
fn grouped_sort_of_empty_project() {
    let mut p = project_with(Vec::new());
    p.sort_tasks_grouped();
    assert!(p.tasks.is_empty());
}

#[test]
fn adding_a_link_twice_keeps_one() {
    let a = task("A", jan(1), jan(2));
    let b = task("B", jan(3), jan(4));
    let d = dep(&a, &b);
    let mut p = project_with(vec![a, b]);
    assert!(p.add_dependency(d));
    assert!(!p.add_dependency(d));
    assert_eq!(p.dependencies.len(), 1);
}

#[test]
fn reverse_link_is_a_different_pair() {
    let a = task("A", jan(1), jan(2));
    let b = task("B", jan(3), jan(4));
    let d1 = dep(&a, &b);
    let d2 = dep(&b, &a);
    let mut p = project_with(vec![a, b]);
    assert!(p.add_dependency(d1));
    assert!(p.add_dependency(d2));
    assert_eq!(p.dependencies.len(), 2);
    p.remove_dependency(d1.from_task, d1.to_task);
    assert_eq!(p.dependencies, vec![d2]);
}

#[test]
fn deleting_a_parent_cascades() {
    let parent = task("P", jan(1), jan(9));
    let c1 = child("c1", jan(1), jan(3), &parent);
    let c2 = child("c2", jan(4), jan(9), &parent);
    let other = task("O", jan(10), jan(12));
    let other2 = task("O2", jan(13), jan(14));
    let links = vec![dep(&c1, &c2), dep(&c2, &other), dep(&other, &parent), dep(&other, &other2)];
    let keep = links[3];
    let (pid, oid, o2id) = (parent.id, other.id, other2.id);
    let mut p = project_with(vec![parent, c1, c2, other, other2]);
    p.dependencies = links;
    p.delete_task(pid);
    let ids: Vec<u128> = p.tasks.iter().map(|t| t.id).collect();
    assert_eq!(ids, vec![oid, o2id]);
    assert_eq!(p.dependencies, vec![keep]);
}

#[test]
fn deleting_a_child_keeps_siblings() {
    let parent = task("P", jan(1), jan(9));
    let c1 = child("c1", jan(1), jan(3), &parent);
    let c2 = child("c2", jan(4), jan(9), &parent);
    let c1id = c1.id;
    let link = dep(&c1, &c2);
    let mut p = project_with(vec![parent, c1, c2]);
    p.dependencies = vec![link];
    p.delete_task(c1id);
    assert_eq!(p.tasks.len(), 2);
    assert!(p.dependencies.is_empty());
}

#[test]
fn find_and_children_queries() {
    let parent = task("P", jan(1), jan(9));
    let c1 = child("c1", jan(1), jan(3), &parent);
    let (pid, cid) = (parent.id, c1.id);
    let p = project_with(vec![parent, c1]);
    assert_eq!(p.find_task(cid), Some(1));
    assert_eq!(p.find_task(12345), None);
    assert!(p.has_children(pid));
    assert!(!p.has_children(cid));
}

#[test]
fn collapsed_parent_hides_children() {
    let mut parent = task("P", jan(1), jan(9));
    parent.collapsed = true;
    let c1 = child("c1", jan(1), jan(3), &parent);
    let other = task("O", jan(1), jan(3));
    let p = project_with(vec![parent, c1, other]);
    assert_eq!(p.visible_rows(), vec![0, 2]);
}

#[test]
fn touch_moves_modified_only() {
    let mut p = Project::new("Name".to_string());
    let created = p.created;
    p.touch();
    assert_eq!(p.created, created);
    assert!(p.modified >= created);
    assert_eq!(p.name, "Name");
}

#[test]
fn history_round_trip() {
    let mut h = UndoHistory::new();
    let before = vec![task("A", jan(1), jan(2))];
    let before_deps: Vec<Dependency> = Vec::new();
    h.push(&before, &before_deps);
    let mut after = before.iter().map(|t| t.duplicate()).collect::<Vec<_>>();
    after[0].set_end(jan(5));
    let snap = h.undo(&after, &before_deps).expect("a state to undo to");
    assert_eq!(snap.tasks[0].end, jan(2));
    assert!(h.can_redo());
    let again = h.redo(&snap.tasks, &snap.dependencies).expect("a state to redo to");
    assert_eq!(again.tasks[0].end, jan(5));
}

#[test]
fn history_empty_stacks_do_nothing() {
    let mut h = UndoHistory::new();
    let ts: Vec<Task> = Vec::new();
    let ds: Vec<Dependency> = Vec::new();
    assert!(h.undo(&ts, &ds).is_none());
    assert!(h.redo(&ts, &ds).is_none());
    assert!(!h.can_undo());
}

#[test]
fn history_evicts_oldest() {
    let mut h = UndoHistory::with_max_depth(2);
    let ds: Vec<Dependency> = Vec::new();
    for day in 1..=3 {
        h.push(&vec![task("A", jan(day), jan(day))], &ds);
    }
    assert_eq!(h.undo_stack.len(), 2);
    assert_eq!(h.undo_stack[0].tasks[0].start, jan(2));
}

#[test]
fn push_clears_redo() {
    let mut h = UndoHistory::new();
    let ts = vec![task("A", jan(1), jan(2))];
    let ds: Vec<Dependency> = Vec::new();
    h.push(&ts, &ds);
    let _ = h.undo(&ts, &ds);
    assert!(h.can_redo());
    h.push(&ts, &ds);
    assert!(!h.can_redo());
}

fn session(tasks: Vec<Task>) -> GanttApp {
    GanttApp::new(project_with(tasks), TimelineViewport::new(jan(1), jan(60)))
}

#[test]
fn session_undo_restores_pre_edit_state() {
    let a = task("A", jan(1), jan(2));
    let b = task("B", jan(3), jan(4));
    let d = dep(&a, &b);
    let mut app = session(vec![a, b]);
    assert!(app.add_dependency(d));
    assert_eq!(app.project.dependencies.len(), 1);
    assert!(app.undo());
    assert!(app.project.dependencies.is_empty());
    assert!(app.redo());
    assert_eq!(app.project.dependencies, vec![d]);
    assert!(!app.redo());
}

#[test]
fn session_duplicate_link_records_nothing() {
    let a = task("A", jan(1), jan(2));
    let b = task("B", jan(3), jan(4));
    let d = dep(&a, &b);
    let mut app = session(vec![a, b]);
    assert!(app.add_dependency(d));
    assert!(!app.add_dependency(d));
    assert_eq!(app.undo_history.undo_stack.len(), 1);
}

#[test]
fn session_delete_then_undo() {
    let parent = task("P", jan(1), jan(9));
    let c1 = child("c1", jan(1), jan(3), &parent);
    let pid = parent.id;
    let cid = c1.id;
    let mut app = session(vec![parent, c1]);
    app.selected_task = Some(cid);
    app.delete_task(pid);
    assert!(app.project.tasks.is_empty());
    assert_eq!(app.selected_task, None);
    assert!(app.undo());
    assert_eq!(app.project.tasks.len(), 2);
    assert_eq!(app.project.tasks[1].id, cid);
}

#[test]
fn session_create_task_groups_and_records() {
    let palette = vec![TaskColor { r: 9, g: 9, b: 9, a: 255 }];
    let mut app = session(Vec::new());
    let id = app.create_task(String::new(), jan(5), jan(1), false, &palette).expect("new task");
    assert_eq!(app.project.tasks.len(), 1);
    let t = &app.project.tasks[0];
    assert_eq!(t.id, id);
    assert_eq!(t.name, "New Task");
    assert_eq!((t.start, t.end), (jan(5), jan(12)));
    assert_eq!(t.color, palette[0]);
    assert!(app.undo_history.can_undo());
    let m = app.create_task("Gate".to_string(), jan(8), jan(20), true, &palette).expect("new milestone");
    let mt = &app.project.tasks[app.project.find_task(m).unwrap()];
    assert!(mt.is_milestone);
    assert_eq!((mt.start, mt.end), (jan(8), jan(8)));
}

#[test]
fn session_add_subtask_after_last_child() {
    let parent = task("P", jan(1), jan(9));
    let c1 = child("c1", jan(1), jan(3), &parent);
    let other = task("O", jan(1), jan(3));
    let pid = parent.id;
    let mut app = session(vec![parent, c1, other]);
    let id = app.add_subtask(pid, jan(4), &Vec::new()).expect("new subtask");
    assert_eq!(app.project.tasks[2].id, id);
    assert_eq!(app.project.tasks[2].parent_id, Some(pid));
    assert_eq!(app.project.tasks[2].name, "New Subtask");
    assert_eq!((app.project.tasks[2].start, app.project.tasks[2].end), (jan(4), jan(11)));
    assert_eq!(app.selected_task, Some(id));
    // The parent now spans both children.
    assert_eq!((app.project.tasks[0].start, app.project.tasks[0].end), (jan(1), jan(11)));
}

#[test]
fn session_add_subtask_under_child_is_refused() {
    let parent = task("P", jan(1), jan(9));
    let c1 = child("c1", jan(1), jan(3), &parent);
    let cid = c1.id;
    let mut app = session(vec![parent, c1]);
    assert_eq!(app.add_subtask(cid, jan(1), &Vec::new()), None);
    assert_eq!(app.add_subtask(777, jan(1), &Vec::new()), None);
    assert_eq!(app.project.tasks.len(), 2);
    assert!(!app.undo_history.can_undo());
}

#[test]
fn session_toggle_collapse() {
    let parent = task("P", jan(1), jan(9));
    let pid = parent.id;
    let mut app = session(vec![parent]);
    assert!(app.toggle_collapse(pid));
    assert!(app.project.tasks[0].collapsed);
    assert!(!app.toggle_collapse(5));
}

#[test]
fn session_set_dates_and_reorder() {
    let m = Task::new_milestone("M".to_string(), jan(2));
    let a = task("A", jan(1), jan(2));
    let aid = a.id;
    let mut app = session(vec![m, a]);
    app.set_task_dates(0, jan(5), jan(9));
    assert_eq!((app.project.tasks[0].start, app.project.tasks[0].end), (jan(5), jan(5)));
    app.set_task_dates(1, jan(5), jan(9));
    assert_eq!((app.project.tasks[1].start, app.project.tasks[1].end), (jan(5), jan(9)));
    app.reorder_task(1, 0);
    assert_eq!(app.project.tasks[0].id, aid);
    app.reorder_task(0, 7);
    assert_eq!(app.project.tasks[0].id, aid);
}

#[test]
fn session_new_project_forgets_history() {
    let a = task("A", jan(1), jan(2));
    let b = task("B", jan(3), jan(4));
    let d = dep(&a, &b);
    let mut app = session(vec![a, b]);
    app.add_dependency(d);
    app.new_project();
    assert_eq!(app.project.name, "Untitled Project");
    assert!(app.project.tasks.is_empty());
    assert!(!app.undo_history.can_undo());
}

#[test]
fn parent_candidates_are_other_top_level_tasks() {
    let a = task("A", jan(1), jan(2));
    let a1 = child("a1", jan(1), jan(2), &a);
    let b = task("B", jan(1), jan(2));
    let aid = a.id;
    let p = project_with(vec![a, a1, b]);
    assert_eq!(p.parent_candidates(aid), vec![2]);
    let a1id = p.tasks[1].id;
    assert_eq!(p.parent_candidates(a1id), vec![0, 2]);
}

#[test]
fn link_candidates_are_unlinked_siblings() {
    let a = task("A", jan(1), jan(2));
    let a1 = child("a1", jan(1), jan(2), &a);
    let a2 = child("a2", jan(1), jan(2), &a);
    let a3 = child("a3", jan(1), jan(2), &a);
    let b = task("B", jan(1), jan(2));
    let c = task("C", jan(1), jan(2));
    let link = dep(&a3, &a1);
    let mut p = project_with(vec![a, a1, a2, a3, b, c]);
    p.dependencies = vec![link];
    // a1: siblings a2 and a3, but a3 is already joined to it.
    assert_eq!(p.link_candidates(1), vec![2]);
    // B: other top-level tasks that are not summaries.
    assert_eq!(p.link_candidates(4), vec![5]);
}

#[test]
fn set_parent_keeps_one_level() {
    let a = task("A", jan(1), jan(2));
    let a1 = child("a1", jan(1), jan(2), &a);
    let b = task("B", jan(1), jan(2));
    let (aid, a1id, bid) = (a.id, a1.id, b.id);
    let mut p = project_with(vec![a, a1, b]);
    // A has a child, so it cannot become a child.
    assert!(!p.set_parent(0, Some(bid)));
    // Nesting under a child is refused, and so is a missing parent.
    assert!(!p.set_parent(2, Some(a1id)));
    assert!(!p.set_parent(2, Some(99)));
    assert!(!p.set_parent(2, Some(bid)));
    assert!(p.set_parent(2, Some(aid)));
    assert_eq!(p.tasks[2].parent_id, Some(aid));
    assert!(p.set_parent(1, None));
    assert_eq!(p.tasks[1].parent_id, None);
}

#[test]
fn invariant_check_on_loaded_data() {
    let a = task("A", jan(1), jan(2));
    let a1 = child("a1", jan(1), jan(2), &a);
    let mut nested = child("x", jan(1), jan(2), &a1);
    let good = project_with(vec![a.duplicate(), a1.duplicate()]);
    assert!(good.check_wf());
    nested.name = "nested".to_string();
    assert!(!project_with(vec![a.duplicate(), a1.duplicate(), nested]).check_wf());
    assert!(!project_with(vec![a.duplicate(), a.duplicate()]).check_wf());
    let mut inverted = task("I", jan(5), jan(6));
    inverted.end = jan(1);
    assert!(!project_with(vec![inverted]).check_wf());
    let b = task("B", jan(1), jan(2));
    let mut twice = project_with(vec![a.duplicate(), b.duplicate()]);
    twice.dependencies = vec![dep(&a, &b), dep(&a, &b)];
    assert!(!twice.check_wf());
    let orphan = child("o", jan(1), jan(2), &b);
    assert!(!project_with(vec![orphan]).check_wf());
}

#[test]
fn session_gesture_records_before_edits() {
    let a = task("A", jan(1), jan(4));
    let aid = a.id;
    let mut app = session(vec![a]);
    app.begin_gesture(aid);
    assert_eq!(app.selected_task, Some(aid));
    app.set_task_dates(0, jan(3), jan(6));
    assert!(app.undo());
    assert_eq!((app.project.tasks[0].start, app.project.tasks[0].end), (jan(1), jan(4)));
    assert!(app.redo());
    assert_eq!((app.project.tasks[0].start, app.project.tasks[0].end), (jan(3), jan(6)));
}

#[test]
fn default_project_is_untitled_and_empty() {
    let p = Project::default();
    assert_eq!(p.name, "Untitled Project");
    assert!(p.tasks.is_empty() && p.dependencies.is_empty());
    assert_eq!(p.created, p.modified);
}

#[test]
fn session_create_with_taken_id_changes_nothing() {
    let a = task("A", jan(1), jan(2));
    let aid = a.id;
    let mut app = session(vec![a]);
    assert!(!app.create_task_with_id(aid, "B".to_string(), jan(1), jan(2), false, &Vec::new()));
    assert_eq!(app.project.tasks.len(), 1);
    assert!(!app.undo_history.can_undo());
    assert!(app.create_task_with_id(42, "B".to_string(), jan(1), jan(2), false, &Vec::new()));
    assert_eq!(app.project.tasks.len(), 2);
    assert_eq!(app.project.tasks[1].id, 42);
}

#[test]
fn session_add_subtask_with_id_rules() {
    let parent = task("P", jan(1), jan(9));
    let c1 = child("c1", jan(1), jan(3), &parent);
    let (pid, cid) = (parent.id, c1.id);
    let mut app = session(vec![parent, c1]);
    assert!(!app.add_subtask_with_id(pid, cid, jan(1), &Vec::new()));
    assert!(!app.add_subtask_with_id(cid, 77, jan(1), &Vec::new()));
    assert!(!app.add_subtask_with_id(pid, pid, jan(1), &Vec::new()));
    assert!(app.add_subtask_with_id(pid, 77, jan(20), &Vec::new()));
    assert_eq!(app.project.tasks[2].id, 77);
    assert_eq!((app.project.tasks[2].start, app.project.tasks[2].end), (jan(20), jan(27)));
    assert_eq!((app.project.tasks[0].start, app.project.tasks[0].end), (jan(1), jan(27)));
    assert_eq!(app.selected_task, Some(77));
}
