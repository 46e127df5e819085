use diary_app_lib::date::{
    conflict_datetime_format, date_format, date_minus_days, diary_file_format, display_datetime,
    format_datetime, parse_date, search_datetime_format, Date, DateTimeWrapper,
};

fn day(y: i32, m: u8, d: u8) -> Date {
    Date::from_calendar_date(y, m, d).unwrap()
}

fn instant(nanos: i128) -> DateTimeWrapper {
    DateTimeWrapper::from_unix_timestamp_nanos(nanos).unwrap()
}

#[test]
fn calendar_dates_are_checked() {
    assert!(Date::from_calendar_date(2011, 5, 23).is_some());
    assert!(Date::from_calendar_date(2012, 2, 29).is_some());
    assert!(Date::from_calendar_date(2011, 2, 29).is_none());
    assert!(Date::from_calendar_date(1900, 2, 29).is_none());
    assert!(Date::from_calendar_date(2000, 2, 29).is_some());
    assert!(Date::from_calendar_date(2011, 13, 1).is_none());
    assert!(Date::from_calendar_date(2011, 4, 31).is_none());
    assert!(Date::from_calendar_date(2011, 0, 1).is_none());
    assert!(Date::from_calendar_date(10000, 1, 1).is_none());
    let d = day(2011, 5, 23);
    assert_eq!((d.year(), d.month(), d.day()), (2011, 5, 23));
}

#[test]
fn dates_display_as_iso() {
    assert_eq!(day(2011, 5, 23).to_iso_string(), "2011-05-23");
    assert_eq!(day(7, 1, 2).to_iso_string(), "0007-01-02");
    assert_eq!(day(-44, 3, 15).to_iso_string(), "-0044-03-15");
}

#[test]
fn keys_follow_the_calendar() {
    assert!(day(2011, 5, 23).key() < day(2011, 5, 24).key());
    assert!(day(2011, 5, 31).key() < day(2011, 6, 1).key());
    assert!(day(2011, 12, 31).key() < day(2012, 1, 1).key());
    assert!(day(-1, 12, 31).key() < day(0, 1, 1).key());
    assert!(day(2011, 5, 23).same_day(&day(2011, 5, 23)));
    assert!(!day(2011, 5, 23).same_day(&day(2012, 5, 23)));
}

#[test]
fn parsing_day_file_names() {
    assert_eq!(parse_date("2011-05-23.txt", diary_file_format()), Some(day(2011, 5, 23)));
    assert_eq!(parse_date("2011-05-23", date_format()), Some(day(2011, 5, 23)));
    assert_eq!(parse_date("2011-02-30.txt", diary_file_format()), None);
    assert_eq!(parse_date("notes.txt", diary_file_format()), None);
    assert_eq!(parse_date("2011-05-23.md", diary_file_format()), None);
}

#[test]
fn counting_days_back() {
    assert_eq!(date_minus_days(&day(2011, 3, 1), 1), Some(day(2011, 2, 28)));
    assert_eq!(date_minus_days(&day(2012, 3, 1), 1), Some(day(2012, 2, 29)));
    assert_eq!(date_minus_days(&day(2011, 1, 1), 3), Some(day(2010, 12, 29)));
    assert_eq!(date_minus_days(&day(2011, 1, 1), 0), Some(day(2011, 1, 1)));
    assert_eq!(date_minus_days(&day(2011, 1, 1), -1), Some(day(2011, 1, 2)));
    assert_eq!(date_minus_days(&day(2011, 1, 1), 10_000_000), None);
    assert_eq!(date_minus_days(&day(2011, 1, 1), -106_751_991_167_300), None);
}

#[test]
fn instants_are_bounded() {
    assert!(DateTimeWrapper::from_unix_timestamp_nanos(0).is_some());
    assert!(DateTimeWrapper::from_unix_timestamp_nanos(253_402_300_799_999_999_999).is_some());
    assert!(DateTimeWrapper::from_unix_timestamp_nanos(253_402_300_800_000_000_000).is_none());
    assert!(DateTimeWrapper::from_unix_timestamp_nanos(-377_705_116_800_000_000_000).is_some());
    assert!(DateTimeWrapper::from_unix_timestamp_nanos(-377_705_116_800_000_000_001).is_none());
    assert_eq!(DateTimeWrapper::year_zero().unix_timestamp_nanos(), -62_167_219_200_000_000_000);
}

#[test]
fn durations_round_towards_zero() {
    let a = instant(1_500_000_000);
    let b = instant(0);
    assert_eq!(a.whole_seconds_since(&b), 1);
    assert_eq!(b.whole_seconds_since(&a), -1);
    assert_eq!(a.whole_milliseconds_since(&b), 1500);
    assert_eq!(b.whole_milliseconds_since(&a), -1500);
    let c = instant(999_999);
    assert_eq!(c.whole_milliseconds_since(&b), 0);
    assert_eq!(b.whole_milliseconds_since(&c), 0);
    assert!(b.is_before(&a));
    assert!(!a.is_before(&b));
    assert!(!a.is_before(&a));
}

#[test]
fn test_time_subsecond() {
    let d = instant(1_640_998_923_123_410_000);
    let f = format_datetime(&d, conflict_datetime_format());
    assert_eq!(&f, "2022-01-01T01:02:03.12341Z");
}

#[test]
fn formats_and_display() {
    let d = instant(1_306_108_800_000_000_000);
    assert_eq!(format_datetime(&d, search_datetime_format()), "2011-05-23T00:00:00Z");
    assert_eq!(display_datetime(&d), "2011-05-23 0:00:00.0 +00:00:00");
    let e = instant(1_640_998_923_123_410_000);
    assert_eq!(display_datetime(&e), "2022-01-01 1:02:03.12341 +00:00:00");
    assert_eq!(format_datetime(&d, "[nonsense"), "");
}

#[test]
fn now_is_recent() {
    let now = DateTimeWrapper::now();
    assert!(now.unix_timestamp_nanos() <= 253_402_300_799_999_999_999);
    assert!(instant(1_600_000_000_000_000_000).is_before(&now));
}
