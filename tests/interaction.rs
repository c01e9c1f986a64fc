use gantt::drag::{
    apply_horizontal, classify, move_task_by_swapping, task_bar_rect, ChartInteraction, DragEffect, DragHandle, DragMode,
    DragSnapshot, DragState, LinkDrag, RowLayout, TaskBar,
};
use gantt::routing::{
    dependency_endpoints, dependency_route_points, distance_to_segment_within, is_point_near_polyline, Point,
    Rect,
};
use gantt::task::{Dependency, DependencyKind, Task};
use gantt::theme::{is_light, vertical_zoom_percent, zoom, AppSettings, ThemeDefinition, ThemeMeta, ThemeZoom};
use gantt::timeline::{drag_days, TimelineScale, TimelineViewport};

fn pt(x: i64, y: i64) -> Point {
    Point { x, y }
}

fn layout(rows: usize) -> RowLayout {
    RowLayout { content_top: 40, row_height: 24, row_gap: 4, row_count: rows }
}

#[test]
fn drag_right_by_three_days_shifts_both_dates() {
    let ppd = 18;
    let mut s = DragState::press(1, DragHandle::Move, 0, 100, 104, pt(300, 60));
    let effect = s.drag_to(pt(300 + 3 * ppd, 60), ppd, layout(5));
    assert_eq!(effect, DragEffect::SetDates { start: 103, end: 107 });
    assert_eq!(s.mode, DragMode::Horizontal);
}

#[test]
fn drag_left_moves_earlier() {
    let mut s = DragState::press(1, DragHandle::Move, 0, 100, 104, pt(300, 60));
    let effect = s.drag_to(pt(300 - 2 * 18 - 8, 60), 18, layout(5));
    assert_eq!(effect, DragEffect::SetDates { start: 98, end: 102 });
}

#[test]
fn classification_is_kept_mid_gesture() {
    let mut s = DragState::press(1, DragHandle::Move, 0, 100, 104, pt(300, 60));
    let first = s.drag_to(pt(340, 62), 18, layout(5));
    assert_eq!(s.mode, DragMode::Horizontal);
    assert_eq!(first, DragEffect::SetDates { start: 102, end: 106 });
    // Far down and barely sideways: would be a reorder on a fresh gesture.
    let later = s.drag_to(pt(301, 200), 18, layout(5));
    assert_eq!(s.mode, DragMode::Horizontal);
    assert_eq!(later, DragEffect::SetDates { start: 100, end: 104 });
}

#[test]
fn vertical_gesture_stays_vertical() {
    let mut s = DragState::press(1, DragHandle::Move, 0, 100, 104, pt(300, 50));
    let first = s.drag_to(pt(302, 100), 18, layout(5));
    assert_eq!(s.mode, DragMode::Vertical);
    assert_eq!(first, DragEffect::Reorder { target_row: 2 });
    let later = s.drag_to(pt(900, 52), 18, layout(5));
    assert_eq!(s.mode, DragMode::Vertical);
    assert_eq!(later, DragEffect::Unchanged);
}

#[test]
fn resize_handles_never_reorder() {
    let mut s = DragState::press(1, DragHandle::ResizeRight, 0, 100, 104, pt(300, 50));
    let effect = s.drag_to(pt(300, 200), 18, layout(5));
    assert_eq!(s.mode, DragMode::Horizontal);
    assert_eq!(effect, DragEffect::SetDates { start: 100, end: 104 });
}

#[test]
fn resize_left_saturates_at_end() {
    let snap = DragSnapshot { start: 100, end: 104, pointer_x: 0, pointer_y: 0 };
    assert_eq!(apply_horizontal(DragHandle::ResizeLeft, snap, 10), (104, 104));
    assert_eq!(apply_horizontal(DragHandle::ResizeLeft, snap, -3), (97, 104));
}

#[test]
fn resize_right_saturates_at_start() {
    let snap = DragSnapshot { start: 100, end: 104, pointer_x: 0, pointer_y: 0 };
    assert_eq!(apply_horizontal(DragHandle::ResizeRight, snap, -10), (100, 100));
    assert_eq!(apply_horizontal(DragHandle::ResizeRight, snap, 2), (100, 106));
}

#[test]
fn milestone_drag_moves_single_date() {
    let snap = DragSnapshot { start: 100, end: 100, pointer_x: 0, pointer_y: 0 };
    assert_eq!(apply_horizontal(DragHandle::Milestone, snap, 5), (105, 105));
}

#[test]
fn move_near_day_range_limit_keeps_duration() {
    let snap = DragSnapshot { start: i32::MAX - 10, end: i32::MAX - 5, pointer_x: 0, pointer_y: 0 };
    assert_eq!(apply_horizontal(DragHandle::Move, snap, 100), (i32::MAX - 5, i32::MAX));
}

#[test]
fn no_motion_is_no_change() {
    let mut s = DragState::press(1, DragHandle::Move, 0, 100, 104, pt(300, 60));
    let effect = s.drag_to(pt(300, 60), 18, layout(5));
    assert_eq!(effect, DragEffect::SetDates { start: 100, end: 104 });
}

#[test]
fn classify_rules() {
    // threshold of a 24 px row: 10 px
    assert_eq!(classify(0, 11, 10), DragMode::Vertical);
    assert_eq!(classify(0, 10, 10), DragMode::Horizontal);
    assert_eq!(classify(12, 11, 10), DragMode::Horizontal);
    assert_eq!(classify(-3, -30, 10), DragMode::Vertical);
    assert_eq!(layout(3).reorder_threshold(), 10);
}

#[test]
fn row_index_is_clamped() {
    let l = layout(3);
    assert_eq!(l.row_index_from_pointer_y(0), Some(0));
    assert_eq!(l.row_index_from_pointer_y(40), Some(0));
    assert_eq!(l.row_index_from_pointer_y(67), Some(0));
    assert_eq!(l.row_index_from_pointer_y(68), Some(1));
    assert_eq!(l.row_index_from_pointer_y(10_000), Some(2));
    assert_eq!(layout(0).row_index_from_pointer_y(50), None);
}

#[test]
fn move_by_swapping_keeps_others_in_order() {
    let mut v = vec!['a', 'b', 'c', 'd', 'e'];
    move_task_by_swapping(&mut v, 1, 3);
    assert_eq!(v, vec!['a', 'c', 'd', 'b', 'e']);
    move_task_by_swapping(&mut v, 4, 0);
    assert_eq!(v, vec!['e', 'a', 'c', 'd', 'b']);
    move_task_by_swapping(&mut v, 2, 9);
    assert_eq!(v, vec!['e', 'a', 'c', 'd', 'b']);
}

fn bars() -> Vec<TaskBar> {
    vec![
        TaskBar { task_id: 10, rect: Rect { min_x: 0, min_y: 0, max_x: 100, max_y: 20 } },
        TaskBar { task_id: 20, rect: Rect { min_x: 50, min_y: 30, max_x: 150, max_y: 50 } },
    ]
}

#[test]
fn link_gesture_creates_finish_to_start() {
    let link = LinkDrag::begin(&bars(), pt(10, 10)).expect("a bar under the pointer");
    assert_eq!(link.from_task, 10);
    assert_eq!(link.from_point, pt(0, 10));
    let made = link.release(&bars(), pt(60, 40), &Vec::new());
    assert_eq!(made, Some(Dependency { from_task: 10, to_task: 20, kind: DependencyKind::FinishToStart }));
}

#[test]
fn link_gesture_discards_self_duplicate_and_empty_targets() {
    let link = LinkDrag::begin(&bars(), pt(10, 10)).unwrap();
    assert_eq!(link.release(&bars(), pt(20, 10), &Vec::new()), None);
    assert_eq!(link.release(&bars(), pt(500, 500), &Vec::new()), None);
    let existing = vec![Dependency { from_task: 10, to_task: 20, kind: DependencyKind::StartToStart }];
    assert_eq!(link.release(&bars(), pt(60, 40), &existing), None);
    assert!(LinkDrag::begin(&bars(), pt(500, 500)).is_none());
}

#[test]
fn interaction_default_is_empty() {
    let i = ChartInteraction::default();
    assert!(!i.changed);
    assert!(i.new_dependency.is_none() && i.remove_dependency.is_none());
    assert!(i.toggle_collapse.is_none() && i.add_subtask.is_none() && i.delete_task.is_none());
}

#[test]
fn endpoints_follow_kind() {
    let from = Rect { min_x: 0, min_y: 0, max_x: 100, max_y: 20 };
    let to = Rect { min_x: 200, min_y: 30, max_x: 300, max_y: 50 };
    assert_eq!(dependency_endpoints(from, to, DependencyKind::FinishToStart), (pt(100, 10), pt(200, 40)));
    assert_eq!(dependency_endpoints(from, to, DependencyKind::StartToStart), (pt(0, 10), pt(200, 40)));
    assert_eq!(dependency_endpoints(from, to, DependencyKind::FinishToFinish), (pt(100, 10), pt(300, 40)));
    assert_eq!(dependency_endpoints(from, to, DependencyKind::StartToFinish), (pt(0, 10), pt(300, 40)));
}

#[test]
fn forward_route_is_orthogonal() {
    let r = dependency_route_points(pt(100, 10), pt(200, 40), DependencyKind::FinishToStart);
    assert_eq!(r, vec![pt(100, 10), pt(110, 10), pt(110, 40), pt(200, 40)]);
}

#[test]
fn same_row_forward_route_is_straight() {
    let r = dependency_route_points(pt(100, 10), pt(200, 10), DependencyKind::FinishToStart);
    assert_eq!(r, vec![pt(100, 10), pt(200, 10)]);
}

#[test]
fn overlapping_finish_to_start_uses_gutter() {
    // From ends two days (36 px) after the successor starts.
    let from = Rect { min_x: 0, min_y: 0, max_x: 136, max_y: 20 };
    let to = Rect { min_x: 100, min_y: 28, max_x: 200, max_y: 48 };
    let (e, n) = dependency_endpoints(from, to, DependencyKind::FinishToStart);
    let r = dependency_route_points(e, n, DependencyKind::FinishToStart);
    assert_eq!(r, vec![pt(136, 10), pt(146, 10), pt(146, 24), pt(90, 24), pt(90, 38), pt(100, 38)]);
}

#[test]
fn same_row_backtrack_loops_below() {
    let r = dependency_route_points(pt(100, 10), pt(50, 10), DependencyKind::FinishToStart);
    assert_eq!(r, vec![pt(100, 10), pt(110, 10), pt(110, 18), pt(40, 18), pt(40, 10), pt(50, 10)]);
}

#[test]
fn lane_routes_for_other_kinds() {
    assert_eq!(
        dependency_route_points(pt(50, 10), pt(80, 40), DependencyKind::StartToStart),
        vec![pt(50, 10), pt(40, 10), pt(40, 40), pt(80, 40)]
    );
    assert_eq!(
        dependency_route_points(pt(5, 10), pt(8, 40), DependencyKind::StartToStart),
        vec![pt(5, 10), pt(2, 10), pt(2, 40), pt(8, 40)]
    );
    assert_eq!(
        dependency_route_points(pt(50, 10), pt(80, 40), DependencyKind::FinishToFinish),
        vec![pt(50, 10), pt(90, 10), pt(90, 40), pt(80, 40)]
    );
    assert_eq!(
        dependency_route_points(pt(200, 10), pt(100, 40), DependencyKind::StartToFinish),
        vec![pt(200, 10), pt(150, 10), pt(150, 40), pt(100, 40)]
    );
    assert_eq!(
        dependency_route_points(pt(100, 10), pt(200, 40), DependencyKind::StartToFinish),
        vec![pt(100, 10), pt(90, 10), pt(90, 25), pt(210, 25), pt(210, 40), pt(200, 40)]
    );
}

#[test]
fn segment_hit_test_uses_clamped_projection() {
    let a = pt(0, 0);
    let b = pt(100, 0);
    assert!(distance_to_segment_within(pt(50, 5), a, b, 6));
    // Exactly at the threshold is not below it.
    assert!(!distance_to_segment_within(pt(50, 6), a, b, 6));
    assert!(!distance_to_segment_within(pt(15, 0), a, pt(10, 0), 5));
    // Beyond the end the distance is to the end point: 5 and 6 from b.
    assert!(distance_to_segment_within(pt(103, 4), a, b, 6));
    assert!(!distance_to_segment_within(pt(106, 5), a, b, 6));
    // Degenerate segment.
    assert!(distance_to_segment_within(pt(3, 4), a, a, 6));
    assert!(!distance_to_segment_within(pt(3, 4), a, a, 5));
    // Diagonal: distance from (0, 10) to the line y = x is about 7.07.
    assert!(distance_to_segment_within(pt(0, 10), a, pt(100, 100), 8));
    assert!(!distance_to_segment_within(pt(0, 10), a, pt(100, 100), 7));
}

#[test]
fn polyline_hit_test() {
    let route = vec![pt(0, 0), pt(10, 0), pt(10, 50)];
    assert!(is_point_near_polyline(pt(14, 30), &route, 6));
    assert!(!is_point_near_polyline(pt(30, 30), &route, 6));
    assert!(!is_point_near_polyline(pt(0, 0), &vec![pt(0, 0)], 6));
}

#[test]
fn rect_queries() {
    let r = Rect { min_x: 0, min_y: 10, max_x: 20, max_y: 21 };
    assert_eq!(r.center_y(), 15);
    assert!(r.contains(pt(20, 21)));
    assert!(!r.contains(pt(21, 21)));
}

#[test]
fn drag_days_rounds_to_nearest() {
    assert_eq!(drag_days(54, 18), 3);
    assert_eq!(drag_days(26, 18), 1);
    assert_eq!(drag_days(27, 18), 2);
    assert_eq!(drag_days(-27, 18), -2);
    assert_eq!(drag_days(-26, 18), -1);
    assert_eq!(drag_days(8, 18), 0);
}

#[test]
fn viewport_transform() {
    let v = TimelineViewport::new(1000, 1030);
    assert_eq!(v.scale, TimelineScale::Weeks);
    assert_eq!(v.pixels_per_day, 18);
    assert_eq!(v.date_to_x(1003), 54);
    assert_eq!(v.date_to_x(998), -36);
    assert_eq!(v.x_to_date(54), 1003);
    assert_eq!(v.x_to_date(62), 1003);
    assert_eq!(v.x_to_date(64), 1004);
    assert_eq!(v.total_width(), 540);
    let swapped = TimelineViewport::new(1030, 1000);
    assert_eq!((swapped.start, swapped.end), (1000, 1030));
}

#[test]
fn viewport_zoom_stays_in_bounds() {
    let mut v = TimelineViewport::new(0, 10);
    v.zoom_in();
    assert_eq!(v.pixels_per_day, 21);
    for _ in 0..40 {
        v.zoom_in();
    }
    assert_eq!(v.pixels_per_day, 80);
    for _ in 0..40 {
        v.zoom_out();
    }
    assert_eq!(v.pixels_per_day, 2);
}

#[test]
fn viewport_scroll() {
    let mut v = TimelineViewport::new(100, 130);
    v.scroll_days(-7);
    assert_eq!((v.start, v.end), (93, 123));
    let mut edge = TimelineViewport::new(i32::MAX - 3, i32::MAX);
    edge.scroll_days(10);
    assert_eq!((edge.start, edge.end), (i32::MAX - 3, i32::MAX));
}

fn theme(variant: &str) -> ThemeDefinition {
    let mut meta = ThemeMeta::default();
    meta.variant = variant.to_string();
    ThemeDefinition { meta, zoom: ThemeZoom::default() }
}

#[test]
fn theme_variant_and_zoom() {
    assert!(is_light(&theme("light")));
    assert!(!is_light(&theme("dark")));
    let t = theme("dark");
    assert_eq!(zoom(&t), ThemeZoom::default());
    assert_eq!(zoom(&t).max_pixels_per_day, 80);
    assert_eq!(t.meta.name, "Default Dark");
    assert_eq!(AppSettings::default().active_theme, "Default Dark");
}

#[test]
fn vertical_zoom_is_clamped() {
    let z = ThemeZoom::default();
    assert_eq!(vertical_zoom_percent(&z, 18), 100);
    assert_eq!(vertical_zoom_percent(&z, 27), 150);
    assert_eq!(vertical_zoom_percent(&z, 2), 80);
    assert_eq!(vertical_zoom_percent(&z, 80), 190);
}

#[test]
fn bar_geometry() {
    let v = TimelineViewport::new(1000, 1030);
    let t = Task::new("T".to_string(), 1002, 1005);
    assert_eq!(task_bar_rect(&v, &t, 10, 100, 24, 3), Rect { min_x: 46, min_y: 103, max_x: 100, max_y: 121 });
    let short = Task::new("S".to_string(), 1002, 1002);
    assert_eq!(task_bar_rect(&v, &short, 10, 100, 24, 3), Rect { min_x: 46, min_y: 103, max_x: 52, max_y: 121 });
    let m = Task::new_milestone("M".to_string(), 1001);
    assert_eq!(task_bar_rect(&v, &m, 0, 100, 24, 3), Rect { min_x: 9, min_y: 103, max_x: 27, max_y: 121 });
    let tall = Task::new_milestone("M".to_string(), 1001);
    assert_eq!(task_bar_rect(&v, &tall, 0, 0, 40, 3), Rect { min_x: 1, min_y: 3, max_x: 35, max_y: 37 });
}

#[test]
fn viewport_fits_tasks() {
    let mut v = TimelineViewport::new(0, 10);
    v.fit_to_tasks(&vec![Task::new("A".to_string(), 100, 120), Task::new("B".to_string(), 90, 95)]);
    assert_eq!((v.start, v.end), (83, 150));
    let before = v;
    v.fit_to_tasks(&Vec::new());
    assert_eq!(v, before);
}
