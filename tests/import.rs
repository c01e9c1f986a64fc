use gantt::import::{column_map, row_fields, tasks_from_records, ImportError};
use gantt::task::{TaskColor, TaskPriority};

fn strings(v: &[&str]) -> Vec<String> {
    v.iter().map(|s| s.to_string()).collect()
}

fn palette() -> Vec<TaskColor> {
    vec![TaskColor { r: 1, g: 1, b: 1, a: 255 }, TaskColor { r: 2, g: 2, b: 2, a: 255 }]
}

#[test]
fn import_maps_columns_and_cells() {
    let headers = strings(&["Task Label", " Start-Date", "End", "Notes", "Colour"]);
    let map = column_map(&headers);
    assert_eq!(map, vec![Some(0), Some(1), Some(2), Some(5), None]);
    let fields = row_fields(&map, &strings(&[" Build ", "2024-01-01", "2024-01-05", " n ", "red"]));
    assert_eq!(fields[0].as_deref(), Some("Build"));
    assert_eq!(fields[5].as_deref(), Some("n"));
    assert_eq!(fields[3], None);
}

#[test]
fn import_builds_tasks_and_counts_skips() {
    let headers = strings(&["Name", "Start", "End", "Status", "Priority", "Milestone", "Parent"]);
    let records = vec![
        strings(&["Phase", "s", "e", "done", "High", "", ""]),
        strings(&["", "s", "e", "", "", "", ""]),
        strings(&["Gate", "s", "e", "", "", "", "phase"]),
        strings(&["Flagged", "s", "e", "In Progress", "med", "Yes", "Phase"]),
        strings(&["No dates", "s", "e", "", "", "", ""]),
    ];
    let days = vec![(Some(10), Some(20)), (Some(1), Some(2)), (Some(15), Some(15)), (Some(5), Some(9)), (None, Some(3))];
    let ids = vec![11, 12, 13, 14, 15];
    let (tasks, skipped) = tasks_from_records(&headers, &records, &days, &ids, &palette()).expect("tasks");
    assert_eq!(skipped, 2);
    assert_eq!(tasks.len(), 3);
    let (p, g, f) = (&tasks[0], &tasks[1], &tasks[2]);
    assert_eq!((p.id, p.name.as_str(), p.start, p.end, p.progress), (11, "Phase", 10, 20, 1000));
    assert_eq!(p.priority, TaskPriority::High);
    assert!(!p.is_milestone);
    assert_eq!(p.parent_id, None);
    assert!(g.is_milestone);
    assert_eq!((g.start, g.end), (15, 15));
    assert_eq!(g.parent_id, Some(11));
    assert!(f.is_milestone);
    assert_eq!((f.start, f.end), (5, 5));
    assert_eq!(f.progress, 500);
    assert_eq!(f.priority, TaskPriority::Medium);
    assert_eq!(f.parent_id, Some(11));
    assert_eq!(f.color, palette()[0]);
    assert_eq!(g.color, palette()[1]);
}

#[test]
fn import_self_parent_is_ignored() {
    let headers = strings(&["Name", "Start", "End", "Parent"]);
    let records = vec![strings(&["Loop", "s", "e", "LOOP"])];
    let (tasks, _) = tasks_from_records(&headers, &records, &vec![(Some(1), Some(4))], &vec![7], &palette()).unwrap();
    assert_eq!(tasks[0].parent_id, None);
    assert_eq!((tasks[0].start, tasks[0].end), (1, 4));
}

#[test]
fn import_errors() {
    let no_end = strings(&["Name", "Start"]);
    assert_eq!(
        tasks_from_records(&no_end, &Vec::new(), &Vec::new(), &Vec::new(), &palette()).unwrap_err(),
        ImportError::MissingColumns
    );
    let headers = strings(&["Name", "Start", "End"]);
    assert_eq!(
        tasks_from_records(&headers, &Vec::new(), &Vec::new(), &Vec::new(), &palette()).unwrap_err(),
        ImportError::NoRows
    );
    let records = vec![strings(&["", "a", "b"]), strings(&["x", "a", "b"])];
    assert_eq!(
        tasks_from_records(&headers, &records, &vec![(Some(1), Some(2)), (None, None)], &vec![1, 2], &palette())
            .unwrap_err(),
        ImportError::NoValidRows { skipped: 2 }
    );
}
