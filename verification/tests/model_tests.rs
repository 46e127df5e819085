use diary_app_lib::date::{Date, DateTimeWrapper};
use diary_app_lib::models::{date_line, entry_line, instant_line, text_len, DiaryCache, DiaryEntries};

fn day(y: i32, m: u8, d: u8) -> Date {
    Date::from_calendar_date(y, m, d).unwrap()
}

fn instant(nanos: i128) -> DateTimeWrapper {
    DateTimeWrapper::from_unix_timestamp_nanos(nanos).unwrap()
}

fn note(nanos: i128, text: &str) -> DiaryCache {
    DiaryCache { diary_datetime: instant(nanos), diary_text: text.to_string() }
}

#[test]
fn cache_notes_equal_within_a_millisecond() {
    assert!(note(0, "a").eq(&note(999_999, "a")));
    assert!(note(999_999, "a").eq(&note(0, "a")));
    assert!(!note(0, "a").eq(&note(1_000_000, "a")));
    assert!(!note(0, "a").eq(&note(0, "b")));
    assert!(note(5, "x").eq(&note(5, "x")));
}

#[test]
fn cache_note_equality_is_not_transitive() {
    let a = note(0, "t");
    let b = note(600_000, "t");
    let c = note(1_200_000, "t");
    assert!(a.eq(&b) && b.eq(&c));
    assert!(!a.eq(&c));
}

#[test]
fn entries_and_lines() {
    let e = DiaryEntries::new(day(2011, 5, 23), "text");
    assert_eq!(e.diary_date, day(2011, 5, 23));
    assert_eq!(e.diary_text, "text");
    let d = e.duplicate();
    assert_eq!((d.diary_date, d.diary_text.as_str(), d.last_modified), (e.diary_date, "text", e.last_modified));
    assert_eq!(entry_line(&e), "2011-05-23\ntext");
    assert_eq!(date_line("update ", &day(2011, 5, 23)), "update 2011-05-23");
    assert_eq!(instant_line("remove ", &instant(0)), "remove 1970-01-01 0:00:00.0 +00:00:00");
    assert_eq!(text_len(&"héllo".to_string()), 6);
    let n = note(3, "x").duplicate();
    assert_eq!((n.diary_datetime, n.diary_text.as_str()), (instant(3), "x"));
}
