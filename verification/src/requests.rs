//! The requests the web front end serves and the answers it builds from
//! what the store returns.
use vstd::prelude::*;

use crate::conflicts::{reviewed_diff_type, reviewed_type};
use crate::date::{date_display, Date, DateTimeWrapper};
use crate::models::{date_line, entry_line, entry_line_spec, instant_line, instant_line_spec, DiaryConflict, DiaryEntries};
use crate::text::{copy_string, join, join_seq, push_str, to_owned_string, views};

verus! {

/// What a search asks for: a text, else a day.
#[derive(Debug)]
pub struct SearchOptions {
    pub text: Option<String>,
    pub date: Option<Date>,
}

/// Which days a listing asks for, and which page of them.
#[derive(Clone, Copy, Debug)]
pub struct ListOptions {
    pub min_date: Option<Date>,
    pub max_date: Option<Date>,
    pub start: Option<usize>,
    pub limit: Option<usize>,
}

/// A request to the diary.
#[derive(Debug)]
pub enum DiaryAppRequests {
    Search(SearchOptions),
    Insert(String),
    Sync,
    Replace { date: Date, text: String },
    List(ListOptions),
    Display(Date),
    ListConflicts(Option<Date>),
    ShowConflict(DateTimeWrapper),
    RemoveConflict(DateTimeWrapper),
    CleanConflicts(Date),
    UpdateConflict { id: u128, diff_text: String },
    CommitConflict(DateTimeWrapper),
}

/// The answer to a request.
#[derive(Debug)]
pub enum DiaryAppOutput {
    Lines(Vec<String>),
    Timestamps(Vec<DateTimeWrapper>),
    Dates(Vec<Date>),
    Conflicts(Vec<DiaryConflict>),
}

/// Why a request failed.
#[derive(Debug)]
pub enum RequestError {
    /// The day asked for has no entry.
    MissingDate(Date),
    /// A review set a diff type other than `rem` or `add`.
    BadDiffType(String),
}

/// The message of a request error.
pub open spec fn request_error_message(e: RequestError) -> Seq<char> {
    match e {
        RequestError::MissingDate(d) => "Date should exist "@ + date_display(d@),
        RequestError::BadDiffType(t) => "Bad diff type "@ + t@,
    }
}

impl RequestError {
    /// `Date should exist {date}` or `Bad diff type {text}`.
    pub fn message(&self) -> (r: String)
        ensures
            r@ == request_error_message(*self),
    {
        match self {
            RequestError::MissingDate(d) => date_line("Date should exist ", d),
            RequestError::BadDiffType(t) => {
                let mut s = to_owned_string("Bad diff type ");
                push_str(&mut s, t.as_str());
                s
            },
        }
    }
}

/// How a search is answered.
#[derive(Debug)]
pub enum SearchPlan {
    /// Search the texts (and the days they name) for this text.
    Text(String),
    /// Show the text of this day.
    Day(Date),
    /// Nothing was asked: answer with one empty line.
    Blank,
}

/// A search looks for its text when it has one, else shows its day, else
/// answers with one empty line.
pub fn search_plan(opts: &SearchOptions) -> (r: SearchPlan)
    ensures
        match opts.text {
            Some(t) => (r matches SearchPlan::Text(u) && u@ == t@),
            None => match opts.date {
                Some(d) => (r matches SearchPlan::Day(e) && e == d),
                None => r is Blank,
            },
        },
{
    match &opts.text {
        Some(t) => SearchPlan::Text(copy_string(t)),
        None => match opts.date {
            Some(d) => SearchPlan::Day(d),
            None => SearchPlan::Blank,
        },
    }
}

/// The answer to a search that asked for nothing: one empty line.
pub fn blank_search_output() -> (r: Vec<String>)
    ensures
        views(r@) == seq![Seq::<char>::empty()],
{
    let mut v: Vec<String> = Vec::new();
    v.push(String::new());
    assert(views(v@) =~= seq![Seq::<char>::empty()]);
    v
}

/// The answer showing the text of a day (`Display`, and a search for a
/// day): the text, or an error when the day has no entry.
pub fn entry_text_output(date: Date, entry: Option<DiaryEntries>) -> (r: Result<Vec<String>, RequestError>)
    ensures
        match entry {
            Some(e) => (r matches Ok(v) && views(v@) == seq![e.diary_text@]),
            None => (r matches Err(RequestError::MissingDate(d)) && d == date),
        },
{
    match entry {
        Some(e) => {
            let mut v: Vec<String> = Vec::new();
            let ghost t = e.diary_text@;
            v.push(e.diary_text);
            assert(views(v@) =~= seq![t]);
            Ok(v)
        },
        None => Err(RequestError::MissingDate(date)),
    }
}

/// The answer to a replacement: the new entry, `{date}\n{text}`.
pub fn replace_output(entry: &DiaryEntries) -> (r: Vec<String>)
    ensures
        views(r@) == seq![entry_line_spec(entry.diary_date@, entry.diary_text@)],
{
    let mut v: Vec<String> = Vec::new();
    let line = entry_line(entry);
    let ghost l = line@;
    v.push(line);
    assert(views(v@) =~= seq![l]);
    v
}

/// The answer to removing conflicts: `remove {instant}` for each.
pub fn removal_lines(stamps: &Vec<DateTimeWrapper>) -> (r: Vec<String>)
    ensures
        views(r@) == stamps@.map_values(|t: DateTimeWrapper| instant_line_spec("remove "@, t@)),
{
    let mut r: Vec<String> = Vec::new();
    let mut i: usize = 0;
    while i < stamps.len()
        invariant
            i <= stamps@.len(),
            views(r@) == stamps@.take(i as int).map_values(|t: DateTimeWrapper| instant_line_spec("remove "@, t@)),
        decreases stamps@.len() - i,
    {
        let ghost before = r@;
        let line = instant_line("remove ", &stamps[i]);
        let ghost lv = line@;
        r.push(line);
        proof {
            assert(views(r@) =~= views(before).push(lv));
            assert(stamps@.take(i + 1) =~= stamps@.take(i as int).push(stamps@[i as int]));
            assert(views(r@) =~= stamps@.take(i + 1).map_values(
                |t: DateTimeWrapper| instant_line_spec("remove "@, t@),
            ));
        }
        i += 1;
    }
    assert(stamps@.take(stamps@.len() as int) =~= stamps@);
    r
}

/// The diff type a review sets (`UpdateConflict`): `rem` or `add`, else an
/// error naming the text.
pub fn update_conflict_type(diff_text: &str) -> (r: Result<&'static str, RequestError>)
    ensures
        match reviewed_diff_type(diff_text@) {
            Some(t) => (r matches Ok(u) && u@ == t),
            None => (r matches Err(RequestError::BadDiffType(s)) && s@ == diff_text@),
        },
{
    match reviewed_type(diff_text) {
        Ok(t) => Ok(t),
        Err(_) => Err(RequestError::BadDiffType(to_owned_string(diff_text))),
    }
}

/// The answer to a review that was stored: `updated`.
pub fn updated_output() -> (r: Vec<String>)
    ensures
        views(r@) == seq!["updated"@],
{
    let mut v: Vec<String> = Vec::new();
    v.push(to_owned_string("updated"));
    assert(views(v@) =~= seq!["updated"@]);
    v
}

/// A button of the page that shows or edits a day.
#[derive(Clone, Copy, PartialEq, Eq, Structural, Debug)]
pub enum EditButton {
    /// Switch to the editor.
    Edit,
    /// Store the edited text.
    Update,
    /// Go back to showing the day.
    Cancel,
}

/// What the page that shows or edits a day holds.
#[derive(Debug)]
pub struct EditView {
    /// The text in the text box: the lines joined by newlines.
    pub text: String,
    /// Whether the text box is read only.
    pub readonly: bool,
    /// The buttons under it, in order.
    pub buttons: Vec<EditButton>,
}

/// The page showing a day (`edit_button`: read only, with an `Edit` button)
/// or editing it (with `Update` and `Cancel`).
pub fn edit_view(text: &Vec<String>, edit_button: bool) -> (r: EditView)
    ensures
        r.text@ == join_seq(views(text@), "\n"@),
        r.readonly == edit_button,
        r.buttons@ == if edit_button {
            seq![EditButton::Edit]
        } else {
            seq![EditButton::Update, EditButton::Cancel]
        },
{
    let joined = join(text, "\n");
    let mut buttons: Vec<EditButton> = Vec::new();
    if edit_button {
        buttons.push(EditButton::Edit);
    } else {
        buttons.push(EditButton::Update);
        buttons.push(EditButton::Cancel);
    }
    EditView { text: joined, readonly: edit_button, buttons }
}

/// What the page listing days holds: each day with whether it has
/// conflicts, and whether a `Previous` button goes before `Next`.
#[derive(Debug)]
pub struct DateListView {
    pub rows: Vec<(Date, bool)>,
    pub previous: bool,
}

/// The page listing `dates`: each marked when it is among `conflict_dates`;
/// a `Previous` button only when the listing started at a position.
pub fn date_list_view(dates: &Vec<Date>, conflict_dates: &Vec<Date>, start: Option<usize>) -> (r: DateListView)
    ensures
        r.rows@.len() == dates@.len(),
        forall|k: int| 0 <= k < dates@.len() ==> (#[trigger] r.rows@[k]).0 == dates@[k] && r.rows@[k].1
            == conflict_dates@.contains(dates@[k]),
        r.previous == start.is_some(),
{
    let mut rows: Vec<(Date, bool)> = Vec::new();
    let mut i: usize = 0;
    while i < dates.len()
        invariant
            i <= dates@.len(),
            rows@.len() == i,
            forall|k: int| 0 <= k < i ==> (#[trigger] rows@[k]).0 == dates@[k] && rows@[k].1
                == conflict_dates@.contains(dates@[k]),
        decreases dates@.len() - i,
    {
        let d = dates[i];
        let mut found = false;
        let mut j: usize = 0;
        while j < conflict_dates.len()
            invariant
                j <= conflict_dates@.len(),
                found <==> exists|m: int| 0 <= m < j && conflict_dates@[m] == d,
            decreases conflict_dates@.len() - j,
        {
            if conflict_dates[j].same_day(&d) {
                proof {
                    Date::lemma_view_injective(conflict_dates@[j as int], d);
                }
                found = true;
            }
            j += 1;
        }
        rows.push((d, found));
        i += 1;
    }
    DateListView { rows, previous: start.is_some() }
}

} // verus!
