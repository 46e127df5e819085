use diary_app_lib::date::{Date, DateTimeWrapper};
use diary_app_lib::interface::{
    backup_lengths, backup_mismatch, backup_needs_refresh, backup_needs_upload, backup_report,
    get_list_of_dates, sync_report,
};
use diary_app_lib::local_sync::{
    cleanup_action, earliest_date, group_by_date, importable_file, is_stale_file, local_entry,
    local_import_check, merge_action, merged_notes_text, new_remote_notes, recent_dates,
    refresh_rewrites, year_file_is_current, year_file_name, year_file_text, year_groups,
    year_latest_modification, year_report, CleanupAction, MergeAction,
};
use diary_app_lib::models::{DiaryCache, DiaryEntries};
use diary_app_lib::s3_sync::{
    day_key, downloaded_entry, export_check, import_check, listed, listing_days, listing_is_stale,
    remaining_keys, resolve_check, s3_mismatch, upload_candidate, KeyError, KeyMetaData, S3Check,
};

const SECOND: i128 = 1_000_000_000;

fn day(y: i32, m: u8, d: u8) -> Date {
    Date::from_calendar_date(y, m, d).unwrap()
}

fn instant(nanos: i128) -> DateTimeWrapper {
    DateTimeWrapper::from_unix_timestamp_nanos(nanos).unwrap()
}

fn entry(d: Date, text: &str) -> DiaryEntries {
    DiaryEntries { diary_date: d, diary_text: text.to_string(), last_modified: instant(0) }
}

// --- listing -------------------------------------------------------------

#[test]
fn listing_pages_newest_first() {
    let dates = vec![day(2011, 5, 23), day(2012, 1, 1), day(2011, 6, 1), day(2011, 5, 24)];
    assert_eq!(
        get_list_of_dates(&dates, None, None),
        vec![day(2012, 1, 1), day(2011, 6, 1), day(2011, 5, 24), day(2011, 5, 23)]
    );
    assert_eq!(get_list_of_dates(&dates, None, Some(2)), vec![day(2012, 1, 1), day(2011, 6, 1)]);
    assert_eq!(get_list_of_dates(&dates, Some(1), Some(2)), vec![day(2011, 6, 1), day(2011, 5, 24)]);
    assert_eq!(get_list_of_dates(&dates, Some(4), None), Vec::<Date>::new());
    assert_eq!(get_list_of_dates(&dates, Some(5), Some(1)), vec![day(2012, 1, 1)]);
    assert_eq!(get_list_of_dates(&dates, None, Some(0)), Vec::<Date>::new());
    assert_eq!(get_list_of_dates(&dates, None, Some(10)).len(), 4);
}

#[test]
fn limit_takes_a_prefix_of_the_listing() {
    let dates: Vec<Date> = (1..=28).map(|d| day(2011, 2, d)).collect();
    let all = get_list_of_dates(&dates, Some(3), None);
    for l in 0..30 {
        let page = get_list_of_dates(&dates, Some(3), Some(l));
        assert!(page.len() <= l);
        assert_eq!(page[..], all[..page.len()]);
    }
}

// --- report --------------------------------------------------------------

#[test]
fn sync_report_lines_in_step_order() {
    let ssh = vec![DiaryCache { diary_datetime: instant(1_306_108_800 * SECOND), diary_text: "n".to_string() }];
    let merged = vec![entry(day(2011, 5, 23), "a")];
    let local = vec![entry(day(2011, 5, 24), "b")];
    let s3 = vec![entry(day(2011, 5, 25), "c")];
    let cleanup = vec![entry(day(2011, 5, 26), "d")];
    let years = vec!["2011 3".to_string()];
    let exports = vec![entry(day(2011, 5, 27), "e")];
    assert_eq!(
        sync_report(&ssh, &merged, &local, &s3, &cleanup, &years, &exports),
        vec![
            "ssh cache 2011-05-23 0:00:00.0 +00:00:00",
            "update 2011-05-23",
            "local import 2011-05-24",
            "s3 import 2011-05-25",
            "local cleanup 2011-05-26",
            "2011 3",
            "s3 export 2011-05-27",
        ]
    );
    assert!(sync_report(&vec![], &vec![], &vec![], &vec![], &vec![], &vec![], &vec![]).is_empty());
}

// --- backups -------------------------------------------------------------

#[test]
fn backup_files_with_day_names() {
    let files = vec![
        ("2011-05-23.txt".to_string(), 10),
        ("README".to_string(), 3),
        ("2011-02-30.txt".to_string(), 4),
        ("2012-01-01.txt".to_string(), 0),
    ];
    assert_eq!(backup_lengths(&files), vec![(day(2011, 5, 23), 10), (day(2012, 1, 1), 0)]);
}

#[test]
fn backup_lengths_may_differ_by_one_byte() {
    let d = day(2011, 5, 23);
    assert_eq!(backup_mismatch(d, 10, 10), None);
    assert_eq!(backup_mismatch(d, 10, 11), None);
    assert_eq!(backup_mismatch(d, 11, 10), None);
    assert_eq!(backup_mismatch(d, 10, 12), Some((d, 10, 12)));
    assert_eq!(backup_mismatch(d, 12, 10), Some((d, 12, 10)));
}

#[test]
fn backup_cleanup_steps() {
    assert!(backup_needs_refresh(10, 20, true));
    assert!(!backup_needs_refresh(10, 20, false));
    assert!(!backup_needs_refresh(20, 10, true));
    assert!(!backup_needs_upload(Some(20), 20));
    assert!(backup_needs_upload(Some(19), 20));
    assert!(backup_needs_upload(None, 20));
    assert_eq!(
        backup_report(&day(2011, 5, 23), 10, 20, true),
        Some("date 2011-05-23 backup_len 10 diary_len 20".to_string())
    );
    assert_eq!(backup_report(&day(2011, 5, 23), 10, 20, false), None);
}

// --- S3 ------------------------------------------------------------------

#[test]
fn bucket_objects_become_days() {
    let t = instant(7 * SECOND);
    let m = KeyMetaData::try_from_object(Some("2011-05-23.txt"), Some(t), 42).unwrap();
    assert_eq!((m.date, m.last_modified, m.size), (day(2011, 5, 23), t, 42));
    assert_eq!(KeyMetaData::try_from_object(None, Some(t), 1).unwrap_err(), KeyError::NoKey);
    assert_eq!(KeyMetaData::try_from_object(Some("notes.txt"), Some(t), 1).unwrap_err(), KeyError::BadKey);
    let fresh = KeyMetaData::try_from_object(Some("2011-05-23.txt"), None, 1).unwrap();
    assert!(instant(1_600_000_000 * SECOND).is_before(&fresh.last_modified));
    assert_eq!(day_key(&day(2011, 5, 23)), "2011-05-23.txt");
}

#[test]
fn listings_and_lookups() {
    let objects = vec![
        (Some("2011-05-23.txt".to_string()), Some(instant(SECOND)), 5),
        (None, Some(instant(SECOND)), 5),
        (Some("junk".to_string()), None, 5),
        (Some("2011-05-23.txt".to_string()), Some(instant(2 * SECOND)), 6),
    ];
    let keys = listing_days(&objects);
    assert_eq!(keys.len(), 2);
    assert_eq!(listed(&keys, &day(2011, 5, 23)), Some((instant(2 * SECOND), 6)));
    assert_eq!(listed(&keys, &day(2011, 5, 24)), None);
    assert!(!listing_is_stale(&instant(0), &instant(300 * SECOND)));
    assert!(listing_is_stale(&instant(0), &instant(301 * SECOND)));
}

#[test]
fn export_and_import_decisions() {
    let t0 = instant(100 * SECOND);
    assert_eq!(export_check(&t0, None), S3Check::Always);
    assert_eq!(export_check(&t0, Some((instant(98 * SECOND), 7))), S3Check::IfStoredLonger(7));
    assert_eq!(export_check(&t0, Some((instant(99 * SECOND + 1), 7))), S3Check::Never);
    let obj = KeyMetaData::try_from_object(Some("2011-05-23.txt"), Some(instant(200 * SECOND)), 9).unwrap();
    assert_eq!(import_check(&obj, None), (S3Check::Always, true));
    assert_eq!(import_check(&obj, Some(instant(100 * SECOND))), (S3Check::IfStoredSizeDiffers(9), true));
    assert_eq!(import_check(&obj, Some(instant(200 * SECOND))), (S3Check::Never, false));
    let empty = KeyMetaData::try_from_object(Some("2011-05-23.txt"), Some(instant(200 * SECOND)), 0).unwrap();
    assert_eq!(import_check(&empty, None), (S3Check::Never, true));
    let stored = Some(entry(day(2011, 5, 23), "héllo"));
    assert!(resolve_check(S3Check::IfStoredLonger(5), &stored));
    assert!(!resolve_check(S3Check::IfStoredLonger(6), &stored));
    assert!(resolve_check(S3Check::IfStoredSizeDiffers(5), &stored));
    assert!(!resolve_check(S3Check::IfStoredSizeDiffers(6), &stored));
    assert!(!resolve_check(S3Check::IfStoredLonger(0), &None));
    assert!(resolve_check(S3Check::Always, &None));
    assert!(!resolve_check(S3Check::Never, &stored));
}

#[test]
fn blank_texts_stay_home() {
    assert!(upload_candidate(Some(entry(day(2011, 5, 23), "  \n"))).is_none());
    assert!(upload_candidate(Some(entry(day(2011, 5, 23), "x"))).is_some());
    assert!(upload_candidate(None).is_none());
    assert!(downloaded_entry(day(2011, 5, 23), " ".to_string(), instant(0)).is_none());
    let e = downloaded_entry(day(2011, 5, 23), " x ".to_string(), instant(0)).unwrap();
    assert_eq!(e.diary_text, " x ");
    assert_eq!(s3_mismatch(day(2011, 5, 23), 3, 3), None);
    assert_eq!(s3_mismatch(day(2011, 5, 23), 3, 4), Some((day(2011, 5, 23), 3, 4)));
    assert_eq!(remaining_keys(Some(100), 40), Some(60));
    assert_eq!(remaining_keys(None, 40), None);
}

// --- local files ---------------------------------------------------------

#[test]
fn day_files_to_import() {
    assert_eq!(importable_file("2011-05-23.txt", 10), Some(day(2011, 5, 23)));
    assert_eq!(importable_file("2011-05-23.txt", 0), None);
    assert_eq!(importable_file("diary_2011.txt", 10), None);
    assert!(local_import_check(None, &instant(0)));
    assert!(local_import_check(Some(instant(0)), &instant(2 * SECOND)));
    assert!(!local_import_check(Some(instant(0)), &instant(SECOND + SECOND / 2)));
    let e = local_entry(day(2011, 5, 23), "  text \n", instant(3)).unwrap();
    assert_eq!((e.diary_date, e.diary_text.as_str(), e.last_modified), (day(2011, 5, 23), "text", instant(3)));
    assert!(local_entry(day(2011, 5, 23), " \n\t", instant(3)).is_none());
}

#[test]
fn recent_days_and_staleness() {
    assert_eq!(earliest_date(&vec![day(2011, 6, 1), day(2011, 5, 23), day(2012, 1, 1)]), Some(day(2011, 5, 23)));
    assert_eq!(earliest_date(&vec![]), None);
    assert_eq!(
        recent_dates(&day(2011, 3, 2)),
        Some(vec![day(2011, 3, 2), day(2011, 3, 1), day(2011, 2, 28), day(2011, 2, 27)])
    );
    assert!(is_stale_file(&day(2011, 2, 27), &day(2011, 2, 27)));
    assert!(!is_stale_file(&day(2011, 2, 28), &day(2011, 2, 27)));
}

#[test]
fn cleanup_actions() {
    let older = instant(SECOND);
    let newer = instant(2 * SECOND);
    assert_eq!(cleanup_action(None, Some(older)), CleanupAction::CreateFile);
    assert_eq!(cleanup_action(Some((older, 4)), None), CleanupAction::CreateEmptyEntry);
    assert_eq!(cleanup_action(Some((older, 4)), Some(newer)), CleanupAction::RefreshFromEntry(4));
    assert_eq!(cleanup_action(Some((newer, 4)), Some(older)), CleanupAction::Nothing);
    assert_eq!(cleanup_action(Some((newer, 4)), Some(newer)), CleanupAction::Nothing);
    assert!(refresh_rewrites(&entry(day(2011, 5, 23), "héllo"), 5));
    assert!(!refresh_rewrites(&entry(day(2011, 5, 23), "héllo"), 6));
}

#[test]
fn yearly_exports() {
    assert_eq!(year_file_name(2013), "diary_2013.txt");
    assert_eq!(year_report(2013, 296), "2013 296");
    assert_eq!(year_report(-5, 0), "-5 0");
    let mods = vec![
        (day(2013, 1, 1), instant(5 * SECOND)),
        (day(2012, 1, 1), instant(9 * SECOND)),
        (day(2013, 2, 1), instant(7 * SECOND)),
    ];
    assert_eq!(year_latest_modification(&mods, 2013), instant(7 * SECOND));
    assert_eq!(year_latest_modification(&mods, 2014), DateTimeWrapper::year_zero());
    assert!(year_file_is_current(Some(instant(7 * SECOND)), &instant(7 * SECOND)));
    assert!(!year_file_is_current(Some(instant(6 * SECOND)), &instant(7 * SECOND)));
    assert!(!year_file_is_current(None, &instant(7 * SECOND)));
    let entries = vec![entry(day(2013, 1, 1), "one"), entry(day(2013, 2, 1), "two")];
    assert_eq!(year_file_text(&entries), "2013-01-01\n\none\n\n2013-02-01\n\ntwo\n\n");
}

#[test]
fn dates_grouped_by_year() {
    let dates = vec![day(2013, 2, 1), day(2012, 5, 5), day(2013, 1, 1)];
    let groups = year_groups(&dates);
    assert_eq!(groups, vec![(2012, vec![day(2012, 5, 5)]), (2013, vec![day(2013, 1, 1), day(2013, 2, 1)])]);
    assert!(year_groups(&vec![]).is_empty());
}

#[test]
fn notes_grouped_by_day_and_merged() {
    let local_dates = vec![day(2011, 5, 23), day(2011, 5, 24), day(2011, 5, 23)];
    let groups = group_by_date(&local_dates);
    assert_eq!(groups, vec![(day(2011, 5, 23), vec![0, 2]), (day(2011, 5, 24), vec![1])]);
    let notes = vec![
        DiaryCache { diary_datetime: instant(0), diary_text: "first".to_string() },
        DiaryCache { diary_datetime: instant(1), diary_text: "second".to_string() },
    ];
    let shown = vec!["T0".to_string(), "T1".to_string()];
    assert_eq!(merged_notes_text(&shown, &notes), "T0\nfirst\n\nT1\nsecond");
    match merge_action(true, None, day(2011, 5, 23), "x") {
        MergeAction::AppendToFile(t) => assert_eq!(t, "\n\nx\n\n"),
        other => panic!("unexpected {other:?}"),
    }
    match merge_action(false, Some(entry(day(2011, 5, 23), "old")), day(2011, 5, 23), "x") {
        MergeAction::UpdateEntry(e) => assert_eq!(e.diary_text, "old\n\nx"),
        other => panic!("unexpected {other:?}"),
    }
    match merge_action(false, None, day(2011, 5, 23), "x") {
        MergeAction::InsertEntry(e) => assert_eq!((e.diary_date, e.diary_text.as_str()), (day(2011, 5, 23), "x")),
        other => panic!("unexpected {other:?}"),
    }
}

#[test]
fn only_new_remote_notes_are_kept() {
    let remote = vec![
        DiaryCache { diary_datetime: instant(1), diary_text: "known".to_string() },
        DiaryCache { diary_datetime: instant(2), diary_text: "new".to_string() },
    ];
    let fresh = new_remote_notes(&remote, &vec![instant(1)]);
    assert_eq!(fresh.len(), 1);
    assert_eq!(fresh[0].diary_text, "new");
    assert_eq!(new_remote_notes(&remote, &vec![]).len(), 2);
}

#[test]
fn uploaded_text_downloads_again() {
    for text in ["a day", "  padded \n", "é"] {
        let stored = entry(day(2011, 5, 23), text);
        let sent = upload_candidate(Some(stored.clone())).unwrap();
        let back = downloaded_entry(day(2011, 5, 23), sent.diary_text.clone(), instant(9)).unwrap();
        assert_eq!((back.diary_date, back.diary_text.as_str()), (day(2011, 5, 23), text));
    }
    assert!(upload_candidate(Some(entry(day(2011, 5, 23), " \n"))).is_none());
    assert!(downloaded_entry(day(2011, 5, 23), " \n".to_string(), instant(9)).is_none());
}

#[test]
fn note_groups_are_never_empty() {
    let groups = group_by_date(&vec![day(2011, 5, 23), day(2011, 5, 23), day(2011, 5, 24)]);
    assert!(groups.iter().all(|(_, positions)| !positions.is_empty()));
    assert!(group_by_date(&vec![]).is_empty());
}

#[test]
fn backup_dates_keep_the_last_length() {
    let files = vec![
        ("2011-05-23.txt".to_string(), 10),
        ("2012-01-01.txt".to_string(), 4),
        ("2011-05-23.txt".to_string(), 12),
    ];
    assert_eq!(backup_lengths(&files), vec![(day(2011, 5, 23), 12), (day(2012, 1, 1), 4)]);
}
