use gantt::columns::{
    detect_delimiter, header_to_col, normalize_header, progress_of_status_word, progress_to_status,
    status_to_progress,
};

#[test]
fn delimiter_detection() {
    assert_eq!(detect_delimiter("Task;Start;End"), b';');
    assert_eq!(detect_delimiter("Task,Start,End"), b',');
    assert_eq!(detect_delimiter("Task\tStart\tEnd"), b'\t');
    assert_eq!(detect_delimiter("Task"), b';');
    assert_eq!(detect_delimiter("a,b\tc\td"), b'\t');
    assert_eq!(detect_delimiter("a,b,c\td"), b',');
}

#[test]
fn header_normalization() {
    assert_eq!(normalize_header("  Task Label "), "tasklabel");
    assert_eq!(normalize_header("Start-Date"), "startdate");
    assert_eq!(normalize_header("IS_MILESTONE"), "ismilestone");
}

#[test]
fn header_columns() {
    assert_eq!(header_to_col("tasklabel"), Some(0));
    assert_eq!(header_to_col("begindate"), Some(1));
    assert_eq!(header_to_col("due"), Some(2));
    assert_eq!(header_to_col("stage"), Some(3));
    assert_eq!(header_to_col("pri"), Some(4));
    assert_eq!(header_to_col("comments"), Some(5));
    assert_eq!(header_to_col("subtaskof"), Some(6));
    assert_eq!(header_to_col("type"), Some(7));
    assert_eq!(header_to_col("colour"), None);
    assert_eq!(header_to_col(&normalize_header("Finish Date")), Some(2));
}

#[test]
fn status_words() {
    assert_eq!(progress_of_status_word("done"), 1000);
    assert_eq!(progress_of_status_word("in-progress"), 500);
    assert_eq!(progress_of_status_word("planned"), 250);
    assert_eq!(progress_of_status_word("new"), 0);
    assert_eq!(status_to_progress("  Completed "), 1000);
    assert_eq!(status_to_progress("In Progress"), 500);
    assert_eq!(status_to_progress("whatever"), 0);
}

#[test]
fn status_for_progress() {
    assert_eq!(progress_to_status(1000), "Finished");
    assert_eq!(progress_to_status(500), "In Progress");
    assert_eq!(progress_to_status(499), "Released");
    assert_eq!(progress_to_status(0), "Not Started");
}
