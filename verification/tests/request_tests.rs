use diary_app_lib::date::{Date, DateTimeWrapper};
use diary_app_lib::models::DiaryEntries;
use diary_app_lib::requests::{
    blank_search_output, date_list_view, edit_view, entry_text_output, EditButton, removal_lines, replace_output, search_plan,
    update_conflict_type, updated_output, RequestError, SearchOptions, SearchPlan,
};

fn day(y: i32, m: u8, d: u8) -> Date {
    Date::from_calendar_date(y, m, d).unwrap()
}

fn instant(nanos: i128) -> DateTimeWrapper {
    DateTimeWrapper::from_unix_timestamp_nanos(nanos).unwrap()
}

#[test]
fn search_plans() {
    let both = SearchOptions { text: Some("walk".to_string()), date: Some(day(2011, 5, 23)) };
    assert!(matches!(search_plan(&both), SearchPlan::Text(t) if t == "walk"));
    let date_only = SearchOptions { text: None, date: Some(day(2011, 5, 23)) };
    assert!(matches!(search_plan(&date_only), SearchPlan::Day(d) if d == day(2011, 5, 23)));
    let none = SearchOptions { text: None, date: None };
    assert!(matches!(search_plan(&none), SearchPlan::Blank));
    assert_eq!(blank_search_output(), vec![String::new()]);
}

#[test]
fn showing_a_day() {
    let e = DiaryEntries { diary_date: day(2011, 5, 23), diary_text: "text".to_string(), last_modified: instant(0) };
    assert_eq!(entry_text_output(day(2011, 5, 23), Some(e)).unwrap(), vec!["text".to_string()]);
    match entry_text_output(day(2011, 5, 23), None) {
        Err(err) => {
            assert!(matches!(err, RequestError::MissingDate(d) if d == day(2011, 5, 23)));
            assert_eq!(err.message(), "Date should exist 2011-05-23");
        }
        Ok(v) => panic!("unexpected {v:?}"),
    }
}

#[test]
fn answers_to_changes() {
    let e = DiaryEntries { diary_date: day(2011, 5, 23), diary_text: "new text".to_string(), last_modified: instant(0) };
    assert_eq!(replace_output(&e), vec!["2011-05-23\nnew text".to_string()]);
    assert_eq!(
        removal_lines(&vec![instant(1_306_108_800_000_000_000)]),
        vec!["remove 2011-05-23 0:00:00.0 +00:00:00".to_string()]
    );
    assert!(removal_lines(&vec![]).is_empty());
    assert_eq!(update_conflict_type("rem").unwrap(), "rem");
    assert_eq!(update_conflict_type("add").unwrap(), "add");
    match update_conflict_type("same") {
        Err(err) => assert_eq!(err.message(), "Bad diff type same"),
        Ok(t) => panic!("unexpected {t}"),
    }
    assert_eq!(updated_output(), vec!["updated".to_string()]);
}

#[test]
fn pages_for_showing_and_editing() {
    let lines = vec!["one".to_string(), "two".to_string()];
    let shown = edit_view(&lines, true);
    assert_eq!((shown.text.as_str(), shown.readonly), ("one\ntwo", true));
    assert_eq!(shown.buttons, vec![EditButton::Edit]);
    let edited = edit_view(&lines, false);
    assert!(!edited.readonly);
    assert_eq!(edited.buttons, vec![EditButton::Update, EditButton::Cancel]);
    assert_eq!(edit_view(&vec![], true).text, "");
}

#[test]
fn date_list_page() {
    let dates = vec![day(2012, 1, 1), day(2011, 5, 23)];
    let view = date_list_view(&dates, &vec![day(2011, 5, 23)], None);
    assert_eq!(view.rows, vec![(day(2012, 1, 1), false), (day(2011, 5, 23), true)]);
    assert!(!view.previous);
    assert!(date_list_view(&dates, &vec![], Some(10)).previous);
}
