use diary_app_lib::date::{Date, DateTimeWrapper};
use diary_app_lib::sorting::{sort_by_key, sort_dedup};

fn day(y: i32, m: u8, d: u8) -> Date {
    Date::from_calendar_date(y, m, d).unwrap()
}

fn instant(nanos: i128) -> DateTimeWrapper {
    DateTimeWrapper::from_unix_timestamp_nanos(nanos).unwrap()
}

#[test]
fn sorting_dates_both_ways() {
    let v = vec![day(2011, 6, 1), day(2010, 1, 1), day(2011, 5, 23)];
    assert_eq!(sort_by_key(&v, false), vec![day(2010, 1, 1), day(2011, 5, 23), day(2011, 6, 1)]);
    assert_eq!(sort_by_key(&v, true), vec![day(2011, 6, 1), day(2011, 5, 23), day(2010, 1, 1)]);
    let mut expected = v.clone();
    expected.sort();
    assert_eq!(sort_by_key(&v, false), expected);
    assert!(sort_by_key(&Vec::<Date>::new(), true).is_empty());
}

#[test]
fn removing_repeats() {
    let v = vec![instant(3), instant(1), instant(3), instant(2), instant(1)];
    let d = sort_dedup(&v);
    assert_eq!(d, vec![instant(1), instant(2), instant(3)]);
    assert_eq!(sort_dedup(&d), d);
    let mut expected = v.clone();
    expected.sort();
    expected.dedup();
    assert_eq!(d, expected);
}
