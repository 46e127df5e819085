use diary_app_lib::date::{Date, DateTimeWrapper};
use diary_app_lib::models::{DiaryCache, DiaryEntries};
use diary_app_lib::search::{
    cache_by_text_query, date_search_results, dates_from_matches, entries_by_text_query,
    get_dates_from_search_text,
    get_matching_dates, modified_map_query, sanitize_search_text, text_search_results, SearchError,
};

fn day(y: i32, m: u8, d: u8) -> Date {
    Date::from_calendar_date(y, m, d).unwrap()
}

fn instant(nanos: i128) -> DateTimeWrapper {
    DateTimeWrapper::from_unix_timestamp_nanos(nanos).unwrap()
}

fn diary_days() -> Vec<Date> {
    vec![day(2011, 5, 23), day(2011, 6, 1), day(2011, 6, 2), day(2012, 1, 1)]
}

#[test]
fn matching_dates_by_year_month_day() {
    let dates = diary_days();
    assert_eq!(get_matching_dates(&dates, Some(2011), None, None).len(), 3);
    assert_eq!(get_matching_dates(&dates, Some(2011), Some(6), None), vec![day(2011, 6, 1), day(2011, 6, 2)]);
    assert_eq!(get_matching_dates(&dates, Some(2011), Some(6), Some(2)), vec![day(2011, 6, 2)]);
    assert_eq!(get_matching_dates(&dates, None, Some(6), Some(2)), Vec::<Date>::new());
    assert_eq!(get_matching_dates(&dates, Some(1952), None, None), Vec::<Date>::new());
    assert_eq!(get_matching_dates(&dates, Some(2011), None, Some(23)).len(), 3);
}

#[test]
fn narrower_searches_find_fewer_dates() {
    let dates = diary_days();
    let year = get_matching_dates(&dates, Some(2011), None, None);
    let month = get_matching_dates(&dates, Some(2011), Some(6), None);
    let dayed = get_matching_dates(&dates, Some(2011), Some(6), Some(1));
    assert!(dayed.iter().all(|d| month.contains(d)));
    assert!(month.iter().all(|d| year.contains(d)));
}

#[test]
fn dates_named_in_search_texts() {
    let dates = diary_days();
    let today = day(2020, 2, 2);
    assert_eq!(get_dates_from_search_text(&dates, "2011-05-23", today), Ok(vec![day(2011, 5, 23)]));
    assert_eq!(get_dates_from_search_text(&dates, "2011-06", today), Ok(vec![day(2011, 6, 1), day(2011, 6, 2)]));
    assert_eq!(get_dates_from_search_text(&dates, "in 2012", today), Ok(vec![day(2012, 1, 1)]));
    assert_eq!(get_dates_from_search_text(&dates, "1952-01-01", today), Ok(vec![]));
    assert_eq!(get_dates_from_search_text(&dates, " Today ", today), Ok(vec![today]));
    assert_eq!(get_dates_from_search_text(&dates, "walk in the park", today), Ok(vec![]));
    assert_eq!(
        get_dates_from_search_text(&dates, "2011-05-23 and 2012-01-01", today),
        Ok(vec![day(2011, 5, 23), day(2012, 1, 1)])
    );
}

#[test]
fn search_text_is_sanitized_in_queries() {
    assert_eq!(sanitize_search_text("it's a walk-in_park; DROP"), "itsawalk-in_parkDROP");
    assert_eq!(sanitize_search_text("héllo wörld"), "héllowörld");
    assert_eq!(
        entries_by_text_query("x'y"),
        "\n                SELECT * FROM diary_entries\n                WHERE diary_text like '%xy%'\n                ORDER BY diary_date\n            "
    );
    assert_eq!(
        cache_by_text_query("ab"),
        "\n                SELECT * FROM diary_cache\n                WHERE diary_text like '%ab%'\n            "
    );
}

#[test]
fn modified_map_queries() {
    assert_eq!(modified_map_query(None, None), "SELECT diary_date, last_modified FROM diary_entries");
    assert_eq!(
        modified_map_query(Some(day(2011, 5, 23)), None),
        "SELECT diary_date, last_modified FROM diary_entries WHERE diary_date >= '2011-05-23'"
    );
    assert_eq!(
        modified_map_query(None, Some(day(2012, 1, 1))),
        "SELECT diary_date, last_modified FROM diary_entries WHERE diary_date <= '2012-01-01'"
    );
    assert_eq!(
        modified_map_query(Some(day(2011, 5, 23)), Some(day(2012, 1, 1))),
        "SELECT diary_date, last_modified FROM diary_entries WHERE diary_date >= '2011-05-23' AND diary_date <= '2012-01-01'"
    );
}

#[test]
fn text_search_lines() {
    let entries = vec![DiaryEntries { diary_date: day(2011, 5, 23), diary_text: "a walk".to_string(), last_modified: instant(0) }];
    let notes = vec![DiaryCache { diary_datetime: instant(1_306_108_800_000_000_000), diary_text: "walk again".to_string() }];
    assert_eq!(
        text_search_results(&entries, &notes),
        vec!["2011-05-23\na walk".to_string(), "2011-05-23T00:00:00Z\nwalk again".to_string()]
    );
}

#[test]
fn date_search_lines_and_missing_entry() {
    let dates = vec![day(2011, 5, 23)];
    let found = vec![Some(DiaryEntries { diary_date: day(2011, 5, 23), diary_text: "text".to_string(), last_modified: instant(0) })];
    let notes = vec![
        DiaryCache { diary_datetime: instant(1_306_108_800_000_000_000), diary_text: "note".to_string() },
        DiaryCache { diary_datetime: instant(0), diary_text: "other day".to_string() },
    ];
    let local_dates = vec![day(2011, 5, 23), day(1970, 1, 1)];
    assert_eq!(
        date_search_results(&dates, &found, &notes, &local_dates),
        Ok(vec!["2011-05-23\ntext".to_string(), "2011-05-23 0:00:00.0 +00:00:00\nnote".to_string()])
    );
    let missing = vec![None];
    assert_eq!(
        date_search_results(&dates, &missing, &notes, &local_dates),
        Err(SearchError::MissingEntry(day(2011, 5, 23)))
    );
}

fn groups(parts: &[&str]) -> Vec<Option<String>> {
    parts.iter().map(|p| Some(p.to_string())).collect()
}

#[test]
fn dates_from_pattern_matches() {
    let dates = diary_days();
    let today = day(2020, 2, 2);
    let none: Vec<Vec<Option<String>>> = vec![];
    let ymd = vec![groups(&["2011", "06", "02"])];
    assert_eq!(dates_from_matches(&dates, "x", today, &ymd, &none, &none), vec![day(2011, 6, 2)]);
    let ym = vec![groups(&["2011", "06"]), groups(&["2012", "01"])];
    assert_eq!(
        dates_from_matches(&dates, "x", today, &none, &ym, &none),
        vec![day(2011, 6, 1), day(2011, 6, 2), day(2012, 1, 1)]
    );
    let y = vec![groups(&["2012"])];
    assert_eq!(dates_from_matches(&dates, "today", today, &none, &none, &y), vec![today, day(2012, 1, 1)]);
    assert_eq!(dates_from_matches(&dates, "x", today, &ymd, &ym, &y), vec![day(2011, 6, 2)]);
    let odd = vec![vec![Some("20x1".to_string()), None]];
    assert_eq!(dates_from_matches(&dates, "x", today, &none, &odd, &none), Vec::<Date>::new());
    let month_256 = vec![groups(&["2011", "262"])];
    assert_eq!(
        dates_from_matches(&dates, "x", today, &none, &month_256, &none),
        vec![day(2011, 6, 1), day(2011, 6, 2)]
    );
}

#[test]
fn matching_distinct_dates_stays_distinct() {
    let dates = diary_days();
    let found = get_matching_dates(&dates, Some(2011), None, None);
    let mut sorted = found.clone();
    sorted.sort();
    sorted.dedup();
    assert_eq!(sorted.len(), found.len());
}
