use diary_app_lib::conflicts::{
    changeset_conflicts, commit_conflict_plan, conflict_display_line, diff_type_str,
    lists_review_lines, parse_conflict_timestamp, plan_from_changeset, replace_z, review_widget, reviewed_type,
    update_plan, BadDiffType, CommitError, DiffKind, ReviewControl,
};
use diary_app_lib::date::{Date, DateTimeWrapper};
use diary_app_lib::models::DiaryConflict;

fn day(y: i32, m: u8, d: u8) -> Date {
    Date::from_calendar_date(y, m, d).unwrap()
}

fn instant(nanos: i128) -> DateTimeWrapper {
    DateTimeWrapper::from_unix_timestamp_nanos(nanos).unwrap()
}

fn conflict(date: Date, diff_type: &str, diff_text: &str, sequence: i32) -> DiaryConflict {
    DiaryConflict::new(instant(0), date, diff_type, diff_text, sequence)
}

#[test]
fn diff_type_names() {
    assert_eq!(diff_type_str(DiffKind::Same), "same");
    assert_eq!(diff_type_str(DiffKind::Add), "add");
    assert_eq!(diff_type_str(DiffKind::Rem), "rem");
}

#[test]
fn changeset_lines_are_numbered() {
    let diffs = vec![
        (DiffKind::Same, "a".to_string()),
        (DiffKind::Rem, "b".to_string()),
        (DiffKind::Add, "c".to_string()),
        (DiffKind::Rem, "d".to_string()),
    ];
    let (lines, removed) = changeset_conflicts(instant(5), day(2011, 5, 23), &diffs);
    assert_eq!(removed, 2);
    assert_eq!(lines.len(), 4);
    let types: Vec<_> = lines.iter().map(|c| c.diff_type.clone()).collect();
    assert_eq!(types, vec!["same", "rem", "add", "rem"]);
    let seqs: Vec<_> = lines.iter().map(|c| c.sequence).collect();
    assert_eq!(seqs, vec![0, 1, 2, 3]);
    assert!(lines.iter().all(|c| c.sync_datetime == instant(5) && c.diary_date == day(2011, 5, 23)));
}

#[test]
fn replacing_a_line_records_a_conflict() {
    let plan = update_plan("line one\nline two", "line one\nline three", true, day(2011, 5, 23));
    assert!(plan.write_text);
    let texts: Vec<_> = plan.conflicts.iter().map(|c| (c.diff_type.clone(), c.diff_text.clone())).collect();
    assert_eq!(
        texts,
        vec![
            ("same".to_string(), "line one".to_string()),
            ("rem".to_string(), "line two".to_string()),
            ("add".to_string(), "line three".to_string()),
        ]
    );
    assert_eq!(plan.result, Some(plan.conflicts[0].sync_datetime));
}

#[test]
fn additions_record_no_conflict() {
    let plan = update_plan("a", "a\nb", true, day(2011, 5, 23));
    assert!(plan.conflicts.is_empty());
    assert_eq!(plan.result, None);
    let plan = update_plan("same", "same", true, day(2011, 5, 23));
    assert!(plan.conflicts.is_empty());
    assert!(plan.write_text);
}

#[test]
fn comparison_without_writing_reports_nothing() {
    let plan = update_plan("a\nb", "a", false, day(2011, 5, 23));
    assert!(!plan.write_text);
    assert_eq!(plan.result, None);
    let plan = update_plan("a", "a\nb", false, day(2011, 5, 23));
    assert!(!plan.conflicts.is_empty());
    assert_eq!(plan.result, None);
}

#[test]
fn commit_keeps_added_and_common_lines() {
    let d = day(2011, 5, 23);
    let lines = vec![
        conflict(d, "same", "line one", 0),
        conflict(d, "rem", "line two", 1),
        conflict(d, "add", "line three", 2),
    ];
    assert_eq!(commit_conflict_plan(&lines), Ok((d, "line one\nline three".to_string())));
}

#[test]
fn commit_errors() {
    assert_eq!(commit_conflict_plan(&Vec::new()), Err(CommitError::NoConflicts));
    let lines = vec![conflict(day(2011, 5, 23), "same", "a", 0), conflict(day(2011, 5, 24), "add", "b", 1)];
    assert_eq!(commit_conflict_plan(&lines), Err(CommitError::SeveralDates));
}

#[test]
fn reviews_set_rem_or_add() {
    assert_eq!(reviewed_type("rem"), Ok("rem"));
    assert_eq!(reviewed_type("add"), Ok("add"));
    assert_eq!(reviewed_type("same"), Err(BadDiffType));
    assert_eq!(reviewed_type("ADD"), Err(BadDiffType));
}

#[test]
fn colored_conflict_lines() {
    let d = day(2011, 5, 23);
    assert_eq!(conflict_display_line(&conflict(d, "rem", "gone", 0)), "\x1b[91mgone\x1b[0m");
    assert_eq!(conflict_display_line(&conflict(d, "add", "new", 0)), "\x1b[92mnew\x1b[0m");
    assert_eq!(conflict_display_line(&conflict(d, "same", "kept", 0)), "kept");
}

#[test]
fn conflict_timestamps() {
    assert_eq!(replace_z("2022-01-01T01:02:03Z"), "2022-01-01T01:02:03+00:00");
    assert_eq!(replace_z("ZZ"), "+00:00+00:00");
    assert_eq!(parse_conflict_timestamp("2022-01-01T01:02:03Z"), Some(instant(1_640_998_923_000_000_000)));
    assert_eq!(
        parse_conflict_timestamp("2022-01-01T01:02:03.12341Z"),
        Some(instant(1_640_998_923_123_410_000))
    );
    assert_eq!(parse_conflict_timestamp("2022-01-01T02:02:03+01:00"), Some(instant(1_640_998_923_000_000_000)));
    assert_eq!(parse_conflict_timestamp("yesterday"), None);
    assert_eq!(parse_conflict_timestamp("9999-12-31T23:59:59-23:59"), None);
    assert!(parse_conflict_timestamp("9999-12-31T23:59:59+00:00").is_some());
}

#[test]
fn conflict_ids_are_fresh() {
    let d = day(2011, 5, 23);
    let a = conflict(d, "add", "x", 0);
    let b = conflict(d, "add", "x", 0);
    assert_ne!(a.id, b.id);
}

#[test]
fn review_page_controls() {
    let d = day(2011, 5, 23);
    assert_eq!(review_widget(&conflict(d, "rem", "one line", 0)), (ReviewControl::OfferAdd, 2));
    assert_eq!(review_widget(&conflict(d, "add", "a\nb\nc", 1)), (ReviewControl::OfferRemove, 4));
    assert_eq!(review_widget(&conflict(d, "same", "", 2)), (ReviewControl::Plain, 2));
    for text in ["", "a", "a\n", "a\nb\n\nc"] {
        assert_eq!(review_widget(&conflict(d, "same", text, 0)).1, text.split('\n').count() + 1);
    }
    assert!(lists_review_lines(&vec![conflict(d, "same", "a", 0), conflict(d, "add", "b", 1)]));
    assert!(!lists_review_lines(&vec![conflict(d, "same", "a", 0), conflict(day(2011, 5, 24), "add", "b", 1)]));
    assert!(lists_review_lines(&vec![]));
}

#[test]
fn plans_from_known_differences() {
    let d = day(2011, 5, 23);
    let now = instant(77);
    let diffs = vec![(DiffKind::Same, "a".to_string()), (DiffKind::Rem, "b".to_string())];
    let plan = plan_from_changeset(&diffs, 1, true, d, now);
    assert!(plan.write_text);
    assert_eq!(plan.result, Some(now));
    assert_eq!(plan.conflicts.len(), 2);
    assert_eq!(plan.conflicts[1].diff_type, "rem");
    let plan = plan_from_changeset(&diffs, 1, false, d, now);
    assert_eq!(plan.result, None);
    assert_eq!(plan.conflicts.len(), 2);
    let plan = plan_from_changeset(&diffs, 0, true, d, now);
    assert!(plan.conflicts.is_empty());
    assert_eq!(plan.result, None);
    let adds = vec![(DiffKind::Same, "a".to_string()), (DiffKind::Add, "b".to_string())];
    let plan = plan_from_changeset(&adds, 1, true, d, now);
    assert!(plan.conflicts.is_empty());
    assert_eq!(plan.result, None);
}

#[test]
fn replacing_a_one_line_text_records_both_lines() {
    let plan = update_plan("Test text", "Test text2", true, day(1950, 1, 1));
    assert_eq!(plan.conflicts.len(), 2);
    assert!(plan.result.is_some());
    assert_eq!(plan.conflicts[0].diff_type, "rem");
    assert_eq!(plan.conflicts[1].diff_type, "add");
}
