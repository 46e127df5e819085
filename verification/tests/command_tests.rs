use diary_app_lib::commands::{
    conflict_instant, conflict_listing_day, conflict_timestamp_lines, lists_conflict_days,
    show_conflict_lines, CommandParseError, DiaryAppCommands,
};
use diary_app_lib::date::{Date, DateTimeWrapper};
use diary_app_lib::models::DiaryConflict;

fn day(y: i32, m: u8, d: u8) -> Date {
    Date::from_calendar_date(y, m, d).unwrap()
}

fn instant(nanos: i128) -> DateTimeWrapper {
    DateTimeWrapper::from_unix_timestamp_nanos(nanos).unwrap()
}

#[test]
fn command_names() {
    assert_eq!(DiaryAppCommands::from_str("search"), Ok(DiaryAppCommands::Search));
    assert_eq!(DiaryAppCommands::from_str("s"), Ok(DiaryAppCommands::Search));
    assert_eq!(DiaryAppCommands::from_str("i"), Ok(DiaryAppCommands::Insert));
    assert_eq!(DiaryAppCommands::from_str("sync"), Ok(DiaryAppCommands::Sync));
    assert_eq!(DiaryAppCommands::from_str("ser"), Ok(DiaryAppCommands::Serialize));
    assert_eq!(DiaryAppCommands::from_str("clear_cache"), Ok(DiaryAppCommands::ClearCache));
    assert_eq!(DiaryAppCommands::from_str("list"), Ok(DiaryAppCommands::ListConflicts));
    assert_eq!(DiaryAppCommands::from_str("show_conflict"), Ok(DiaryAppCommands::ShowConflict));
    assert_eq!(DiaryAppCommands::from_str("remove"), Ok(DiaryAppCommands::RemoveConflict));
    assert_eq!(DiaryAppCommands::from_str("run-migrations"), Ok(DiaryAppCommands::RunMigrations));
    assert_eq!(DiaryAppCommands::from_str("Search"), Err(CommandParseError));
    assert_eq!(DiaryAppCommands::from_str(""), Err(CommandParseError));
    assert_eq!("sync".parse::<DiaryAppCommands>(), Ok(DiaryAppCommands::Sync));
    assert_eq!(CommandParseError.message(), "Parse failure");
}

#[test]
fn conflict_listing_arguments() {
    assert_eq!(conflict_listing_day(&vec!["2011-05-23".to_string()]), Some(day(2011, 5, 23)));
    assert_eq!(conflict_listing_day(&vec!["2011-05".to_string(), "-23".to_string()]), Some(day(2011, 5, 23)));
    assert_eq!(conflict_listing_day(&vec![]), None);
    assert_eq!(conflict_listing_day(&vec!["soon".to_string()]), None);
    assert!(lists_conflict_days(&vec![day(2011, 5, 23), day(2011, 5, 24)]));
    assert!(!lists_conflict_days(&vec![day(2011, 5, 23)]));
}

#[test]
fn conflict_timestamps_listed_once_in_order() {
    let a = instant(1_640_998_923_123_410_000);
    let b = instant(1_306_108_800_000_000_000);
    assert_eq!(
        conflict_timestamp_lines(&vec![a, b, a]),
        vec!["2011-05-23T00:00:00.0Z".to_string(), "2022-01-01T01:02:03.12341Z".to_string()]
    );
}

#[test]
fn showing_a_conflict() {
    assert_eq!(conflict_instant(&vec!["2022-01-01T01:02:03Z".to_string()]), Some(instant(1_640_998_923_000_000_000)));
    assert_eq!(conflict_instant(&vec!["x".to_string()]), None);
    let t = instant(1_306_108_800_000_000_000);
    let lines = vec![
        DiaryConflict::new(t, day(2011, 5, 23), "same", "kept", 0),
        DiaryConflict::new(t, day(2011, 5, 23), "rem", "gone", 1),
    ];
    assert_eq!(
        show_conflict_lines(&t, &lines),
        vec![
            "datetime 2011-05-23 0:00:00.0 +00:00:00".to_string(),
            "kept".to_string(),
            "\x1b[91mgone\x1b[0m".to_string(),
        ]
    );
}
