//! Searching the diary: which dates a search text names, the queries it
//! becomes, and how the found entries and notes are shown.
use vstd::prelude::*;

use crate::commands::chars_equal;
use crate::date::{
    date_display, date_key, format_datetime, search_datetime_format, spec_time_display_datetime,
    spec_time_format_datetime, Date, DateTimeWrapper,
};
use crate::models::{entry_line, entry_line_spec, DiaryCache, DiaryEntries};
use crate::text::{
    is_alphanumeric, is_ascii_alphanumeric, parse_i32, parse_int_seq, parse_u32, push_char, push_str, spec_is_alphanumeric,
    spec_to_lowercase, str_chars, to_lowercase, to_owned_string, trim, trim_seq,
};

verus! {

// ---------------------------------------------------------------------------
// Dates named in a search text
// ---------------------------------------------------------------------------

/// Whether `d` is selected by a year, month and day filter: the year is
/// required, month and day narrow it down when given (as the diary casts
/// them to `u8`, only their value modulo 256 counts).
pub open spec fn date_matches(d: (int, int, int), year: Option<int>, month: Option<int>, day: Option<int>) -> bool {
    match year {
        None => false,
        Some(y) => {
            &&& match month {
                None => true,
                Some(m) => {
                    &&& match day {
                        None => true,
                        Some(dd) => dd % 256 == d.2,
                    }
                    &&& m % 256 == d.1
                },
            }
            &&& y == d.0
        },
    }
}

/// The filter of [`date_matches`] on dates.
pub open spec fn matches_pred(year: Option<int>, month: Option<int>, day: Option<int>) -> spec_fn(Date) -> bool {
    |d: Date| date_matches(d@, year, month, day)
}

/// The `i32` option viewed as an integer option.
pub open spec fn opt_i32(o: Option<i32>) -> Option<int> {
    match o {
        Some(x) => Some(x as int),
        None => None,
    }
}

/// The `u32` option viewed as an integer option.
pub open spec fn opt_u32(o: Option<u32>) -> Option<int> {
    match o {
        Some(x) => Some(x as int),
        None => None,
    }
}

fn matches_date(d: &Date, year: Option<i32>, month: Option<u32>, day: Option<u32>) -> (r: bool)
    ensures
        r == date_matches(d@, opt_i32(year), opt_u32(month), opt_u32(day)),
{
    match year {
        None => false,
        Some(y) => {
            let month_ok = match month {
                None => true,
                Some(m) => {
                    let day_ok = match day {
                        None => true,
                        Some(dd) => (dd % 256) as u8 == d.day(),
                    };
                    day_ok && (m % 256) as u8 == d.month()
                },
            };
            month_ok && y == d.year()
        },
    }
}

/// The dates among `dates` selected by the year, month and day filter, in
/// their order (`get_matching_dates`).
pub fn get_matching_dates(dates: &Vec<Date>, year: Option<i32>, month: Option<u32>, day: Option<u32>) -> (r: Vec<Date>)
    ensures
        r@ == dates@.filter(matches_pred(opt_i32(year), opt_u32(month), opt_u32(day))),
        dates@.no_duplicates() ==> r@.no_duplicates(),
{
    let ghost pred = matches_pred(opt_i32(year), opt_u32(month), opt_u32(day));
    let mut r: Vec<Date> = Vec::new();
    let mut i: usize = 0;
    assert(dates@.take(0) =~= Seq::<Date>::empty());
    while i < dates.len()
        invariant
            i <= dates@.len(),
            pred == matches_pred(opt_i32(year), opt_u32(month), opt_u32(day)),
            r@ == dates@.take(i as int).filter(pred),
        decreases dates@.len() - i,
    {
        proof {
            reveal_with_fuel(Seq::<_>::filter, 1);
            assert(dates@.take(i + 1).drop_last() =~= dates@.take(i as int));
        }
        if matches_date(&dates[i], year, month, day) {
            r.push(dates[i]);
        }
        i += 1;
    }
    assert(dates@.take(dates@.len() as int) =~= dates@);
    proof {
        if dates@.no_duplicates() {
            lemma_filter_no_duplicates(dates@, pred);
        }
    }
    r
}

/// Keeping some elements of a sequence without repeats gives one without
/// repeats.
proof fn lemma_filter_no_duplicates<A>(s: Seq<A>, p: spec_fn(A) -> bool)
    requires
        s.no_duplicates(),
    ensures
        s.filter(p).no_duplicates(),
    decreases s.len(),
{
    reveal_with_fuel(Seq::<_>::filter, 1);
    if s.len() > 0 {
        let t = s.drop_last();
        assert forall|i: int, j: int| 0 <= i < t.len() && 0 <= j < t.len() && i != j implies t[i] != t[j] by {
            assert(t[i] == s[i] && t[j] == s[j]);
        }
        lemma_filter_no_duplicates(t, p);
        if p(s.last()) {
            let f = t.filter(p);
            if f.contains(s.last()) {
                t.lemma_filter_contains_rev(p, s.last());
                let k = choose|k: int| 0 <= k < t.len() && t[k] == s.last();
                assert(s[k] == s[s.len() - 1]);
            }
            assert(s.filter(p) == f.push(s.last()));
            assert forall|i: int, j: int| 0 <= i < f.len() + 1 && 0 <= j < f.len() + 1 && i != j implies
                f.push(s.last())[i] != f.push(s.last())[j] by {
                if i < f.len() && j < f.len() {
                } else if i == f.len() {
                    assert(f.contains(f[j]));
                } else {
                    assert(f.contains(f[i]));
                }
            }
        }
    }
}

/// What the `regex` crate finds for a pattern in a text: `None` where the
/// pattern does not compile, else one entry per match of
/// `Regex::captures_iter`, holding the text of each capture group after
/// the whole match (`None` for a group that took no part).
pub uninterp spec fn spec_regex_captures(pattern: Seq<char>, text: Seq<char>) -> Option<Seq<Seq<Option<Seq<char>>>>>;

/// `Regex::new(pattern)` and `captures_iter(text)`, each match given as the
/// texts of its groups. The contract only names the result.
#[verifier::external_body]
fn regex_captures(pattern: &str, text: &str) -> (r: Option<Vec<Vec<Option<String>>>>)
    ensures
        r matches Some(v) ==> spec_regex_captures(pattern@, text@) == Some(
            v@.map_values(|c: Vec<Option<String>>| c@.map_values(|g: Option<String>| match g {
                Some(s) => Some(s@),
                None => None,
            })),
        ),
        r is None ==> spec_regex_captures(pattern@, text@) is None,
{
    let re = regex::Regex::new(pattern).ok()?;
    Some(
        re.captures_iter(text)
            .map(|c| (1..c.len()).map(|i| c.get(i).map(|m| m.as_str().to_string())).collect())
            .collect(),
    )
}

/// The pattern of a full date in a search text.
#[verifier::allow_in_spec]
pub fn year_month_day_pattern() -> &'static str
    returns
        r"(?P<year>\d{4})-(?P<month>\d{2})-(?P<day>\d{2})",
{
    r"(?P<year>\d{4})-(?P<month>\d{2})-(?P<day>\d{2})"
}

/// The pattern of a year and month in a search text.
#[verifier::allow_in_spec]
pub fn year_month_pattern() -> &'static str
    returns
        r"(?P<year>\d{4})-(?P<month>\d{2})",
{
    r"(?P<year>\d{4})-(?P<month>\d{2})"
}

/// The pattern of a year in a search text.
#[verifier::allow_in_spec]
pub fn year_pattern() -> &'static str
    returns
        r"(?P<year>\d{4})",
{
    r"(?P<year>\d{4})"
}

/// Group `i` of a match, if present.
pub open spec fn group(cap: Seq<Option<Seq<char>>>, i: int) -> Option<Seq<char>> {
    if 0 <= i < cap.len() {
        cap[i]
    } else {
        None
    }
}

/// A group read as `i32` (`None` where it is absent or does not parse).
pub open spec fn group_i32(g: Option<Seq<char>>) -> Option<int> {
    match g {
        Some(s) => parse_int_seq(s, i32::MIN as int, i32::MAX as int),
        None => None,
    }
}

/// A group read as `u32` (`None` where it is absent or does not parse).
pub open spec fn group_u32(g: Option<Seq<char>>) -> Option<int> {
    match g {
        Some(s) => parse_int_seq(s, 0, u32::MAX as int),
        None => None,
    }
}

/// The dates selected by each match in turn: `fields` is 3 for matches of
/// year, month and day, 2 for year and month, 1 for a year.
pub open spec fn dates_for_captures(dates: Seq<Date>, caps: Seq<Seq<Option<Seq<char>>>>, fields: int) -> Seq<Date>
    decreases caps.len(),
{
    if caps.len() == 0 {
        Seq::empty()
    } else {
        let c = caps.last();
        let year = group_i32(group(c, 0));
        let month = if fields >= 2 {
            group_u32(group(c, 1))
        } else {
            None
        };
        let day = if fields >= 3 {
            group_u32(group(c, 2))
        } else {
            None
        };
        dates_for_captures(dates, caps.drop_last(), fields) + dates.filter(
            matches_pred(year, month, day),
        )
    }
}

/// Whether the search text asks for today.
pub open spec fn asks_for_today(text: Seq<char>) -> bool {
    spec_to_lowercase(trim_seq(text)) == "today"@
}

/// The dates a search text names among `dates` (the days the diary has),
/// given the matches of the date (`ymd`), month (`ym`) and year (`y`)
/// patterns in it: `today` when the text says so, then the dates matched by
/// the first of the three patterns that matches at all.
pub open spec fn search_dates_from(
    dates: Seq<Date>,
    text: Seq<char>,
    today: Date,
    ymd: Seq<Seq<Option<Seq<char>>>>,
    ym: Seq<Seq<Option<Seq<char>>>>,
    y: Seq<Seq<Option<Seq<char>>>>,
) -> Seq<Date> {
    let first = if asks_for_today(text) {
        seq![today]
    } else {
        Seq::empty()
    };
    let rest = if ymd.len() > 0 {
        dates_for_captures(dates, ymd, 3)
    } else if ym.len() > 0 {
        dates_for_captures(dates, ym, 2)
    } else if y.len() > 0 {
        dates_for_captures(dates, y, 1)
    } else {
        Seq::empty()
    };
    first + rest
}

/// The dates a search text names among `dates`, with the patterns matched
/// by the `regex` crate; `None` where a pattern does not compile.
pub open spec fn search_dates_spec(dates: Seq<Date>, text: Seq<char>, today: Date) -> Option<Seq<Date>> {
    let ymd = spec_regex_captures(year_month_day_pattern()@, text);
    let ym = spec_regex_captures(year_month_pattern()@, text);
    let y = spec_regex_captures(year_pattern()@, text);
    if ymd is None || ym is None || y is None {
        None
    } else {
        Some(search_dates_from(dates, text, today, ymd.unwrap(), ym.unwrap(), y.unwrap()))
    }
}

/// The error of a search.
#[derive(Clone, Copy, PartialEq, Eq, Structural, Debug)]
pub enum SearchError {
    /// One of the date patterns does not compile.
    BadPattern,
    /// A date the diary lists has no entry.
    MissingEntry(Date),
}

fn group_i32_exec(c: &Vec<Option<String>>, i: usize) -> (r: Option<i32>)
    ensures
        opt_i32(r) == group_i32(group(
            c@.map_values(|g: Option<String>| match g {
                Some(s) => Some(s@),
                None => None,
            }),
            i as int,
        )),
{
    if i < c.len() {
        match &c[i] {
            Some(s) => parse_i32(s.as_str()),
            None => None,
        }
    } else {
        None
    }
}

fn group_u32_exec(c: &Vec<Option<String>>, i: usize) -> (r: Option<u32>)
    ensures
        opt_u32(r) == group_u32(group(
            c@.map_values(|g: Option<String>| match g {
                Some(s) => Some(s@),
                None => None,
            }),
            i as int,
        )),
{
    if i < c.len() {
        match &c[i] {
            Some(s) => parse_u32(s.as_str()),
            None => None,
        }
    } else {
        None
    }
}

/// The views of the matches a regex gives.
pub open spec fn caps_view(v: Seq<Vec<Option<String>>>) -> Seq<Seq<Option<Seq<char>>>> {
    v.map_values(|c: Vec<Option<String>>| c@.map_values(|g: Option<String>| match g {
        Some(s) => Some(s@),
        None => None,
    }))
}

fn dates_for_captures_exec(dates: &Vec<Date>, caps: &Vec<Vec<Option<String>>>, fields: usize) -> (r: Vec<Date>)
    ensures
        r@ == dates_for_captures(dates@, caps_view(caps@), fields as int),
{
    let mut r: Vec<Date> = Vec::new();
    let mut k: usize = 0;
    assert(caps_view(caps@).take(0) =~= Seq::<Seq<Option<Seq<char>>>>::empty());
    while k < caps.len()
        invariant
            k <= caps@.len(),
            r@ == dates_for_captures(dates@, caps_view(caps@).take(k as int), fields as int),
        decreases caps@.len() - k,
    {
        let year = group_i32_exec(&caps[k], 0);
        let month = if fields >= 2 {
            group_u32_exec(&caps[k], 1)
        } else {
            None
        };
        let day = if fields >= 3 {
            group_u32_exec(&caps[k], 2)
        } else {
            None
        };
        let found = get_matching_dates(dates, year, month, day);
        let ghost before = r@;
        let mut j: usize = 0;
        while j < found.len()
            invariant
                j <= found@.len(),
                r@ == before + found@.take(j as int),
            decreases found@.len() - j,
        {
            r.push(found[j]);
            assert(found@.take(j + 1) =~= found@.take(j as int).push(found@[j as int]));
            j += 1;
        }
        proof {
            let cv = caps_view(caps@);
            assert(cv.take(k + 1).drop_last() =~= cv.take(k as int));
            assert(cv.take(k + 1).last() == cv[k as int]);
            assert(found@.take(found@.len() as int) =~= found@);
            let m_none: Option<int> = None;
            assert(opt_u32(None) == m_none);
        }
        k += 1;
    }
    assert(caps_view(caps@).take(caps@.len() as int) =~= caps_view(caps@));
    r
}

fn append_dates(r: &mut Vec<Date>, more: &Vec<Date>)
    ensures
        final(r)@ == old(r)@ + more@,
{
    let mut j: usize = 0;
    while j < more.len()
        invariant
            j <= more@.len(),
            r@ == old(r)@ + more@.take(j as int),
        decreases more@.len() - j,
    {
        r.push(more[j]);
        assert(more@.take(j + 1) =~= more@.take(j as int).push(more@[j as int]));
        j += 1;
    }
    assert(more@.take(more@.len() as int) =~= more@);
}

/// The dates a search text names, given the matches of the three date
/// patterns in it (each match as the texts of its groups).
pub fn dates_from_matches(
    dates: &Vec<Date>,
    search_text: &str,
    today: Date,
    ymd: &Vec<Vec<Option<String>>>,
    ym: &Vec<Vec<Option<String>>>,
    y: &Vec<Vec<Option<String>>>,
) -> (r: Vec<Date>)
    ensures
        r@ == search_dates_from(dates@, search_text@, today, caps_view(ymd@), caps_view(ym@), caps_view(y@)),
{
    let mut r: Vec<Date> = Vec::new();
    let trimmed = trim(search_text);
    let lower = to_lowercase(trimmed.as_str());
    if chars_equal(&str_chars(lower.as_str()), "today") {
        r.push(today);
    }
    let rest = if ymd.len() > 0 {
        dates_for_captures_exec(dates, ymd, 3)
    } else if ym.len() > 0 {
        dates_for_captures_exec(dates, ym, 2)
    } else if y.len() > 0 {
        dates_for_captures_exec(dates, y, 1)
    } else {
        Vec::new()
    };
    append_dates(&mut r, &rest);
    proof {
        if !asks_for_today(search_text@) {
            assert(r@ =~= Seq::<Date>::empty() + rest@);
        } else {
            assert(r@ =~= seq![today] + rest@);
        }
        if ymd@.len() == 0 && ym@.len() == 0 && y@.len() == 0 {
            assert(rest@ =~= Seq::<Date>::empty());
        }
    }
    r
}

/// The dates a search text names (`get_dates_from_search_text`); `dates`
/// are the days the diary has and `today` is the current local date.
pub fn get_dates_from_search_text(dates: &Vec<Date>, search_text: &str, today: Date) -> (r: Result<Vec<Date>, SearchError>)
    ensures
        r matches Ok(v) ==> search_dates_spec(dates@, search_text@, today) == Some(v@),
        r is Err ==> r == Err::<Vec<Date>, SearchError>(SearchError::BadPattern) && search_dates_spec(
            dates@,
            search_text@,
            today,
        ) is None,
{
    let ymd = regex_captures(year_month_day_pattern(), search_text);
    let ym = regex_captures(year_month_pattern(), search_text);
    let y = regex_captures(year_pattern(), search_text);
    match (ymd, ym, y) {
        (Some(ymd), Some(ym), Some(y)) => Ok(dates_from_matches(dates, search_text, today, &ymd, &ym, &y)),
        _ => Err(SearchError::BadPattern),
    }
}

// ---------------------------------------------------------------------------
// Queries
// ---------------------------------------------------------------------------

/// The characters kept from a search text before it goes into a query:
/// letters, digits, `-` and `_`.
pub open spec fn keeps_in_search(c: char) -> bool {
    spec_is_alphanumeric(c) || c == '-' || c == '_'
}

/// The search text with every other character dropped.
pub open spec fn sanitize_spec(s: Seq<char>) -> Seq<char> {
    s.filter(|c: char| keeps_in_search(c))
}

/// Whether an ASCII character is kept in a search text: an ASCII letter or
/// digit, `-` or `_`.
pub open spec fn keeps_ascii_in_search(c: char) -> bool {
    is_ascii_alphanumeric(c) || c == '-' || c == '_'
}

/// Whether every character of `s` is ASCII.
pub open spec fn all_ascii(s: Seq<char>) -> bool {
    forall|k: int| 0 <= k < s.len() ==> (#[trigger] s[k] as u32) < 128
}

/// A text whose characters are all ASCII letters, digits, `-` or `_` is
/// its own filtering by them.
proof fn lemma_filter_keeps_all(s: Seq<char>)
    requires
        forall|k: int| 0 <= k < s.len() ==> keeps_ascii_in_search(#[trigger] s[k]),
    ensures
        all_ascii(s),
        s.filter(|c: char| keeps_ascii_in_search(c)) == s,
    decreases s.len(),
{
    reveal_with_fuel(Seq::<_>::filter, 1);
    if s.len() > 0 {
        let p = s.drop_last();
        assert forall|k: int| 0 <= k < p.len() implies keeps_ascii_in_search(#[trigger] p[k]) by {
            assert(p[k] == s[k]);
        }
        lemma_filter_keeps_all(p);
        assert(keeps_ascii_in_search(s[s.len() - 1]));
        assert(p.push(s.last()) =~= s);
    } else {
        assert(s.filter(|c: char| keeps_ascii_in_search(c)) =~= s);
    }
}

/// The search text as it goes into a query: only letters, digits, `-` and
/// `_` are kept. Of an ASCII text exactly its ASCII letters, digits, `-`
/// and `_` are kept, in order.
pub fn sanitize_search_text(search_text: &str) -> (r: String)
    ensures
        r@ == sanitize_spec(search_text@),
        all_ascii(search_text@) ==> r@ == search_text@.filter(|c: char| keeps_ascii_in_search(c)),
        (forall|k: int| 0 <= k < search_text@.len() ==> keeps_ascii_in_search(#[trigger] search_text@[k]))
            ==> r@ == search_text@,
{
    proof {
        if forall|k: int| 0 <= k < search_text@.len() ==> keeps_ascii_in_search(#[trigger] search_text@[k]) {
            lemma_filter_keeps_all(search_text@);
        }
    }
    let v = str_chars(search_text);
    let mut r = String::new();
    let mut i: usize = 0;
    assert(v@.take(0) =~= Seq::<char>::empty());
    proof {
        reveal_with_fuel(Seq::<_>::filter, 1);
    }
    while i < v.len()
        invariant
            i <= v@.len(),
            r@ == v@.take(i as int).filter(|c: char| keeps_in_search(c)),
            all_ascii(v@.take(i as int)) ==> r@ == v@.take(i as int).filter(|c: char| keeps_ascii_in_search(c)),
        decreases v@.len() - i,
    {
        let ghost before = v@.take(i as int);
        proof {
            reveal_with_fuel(Seq::<_>::filter, 1);
            assert(v@.take(i + 1).drop_last() =~= before);
            assert(v@.take(i + 1).last() == v@[i as int]);
        }
        let c = v[i];
        let alnum = is_alphanumeric(c);
        if alnum || c == '-' || c == '_' {
            push_char(&mut r, c);
        }
        proof {
            if all_ascii(v@.take(i + 1)) {
                assert(v@.take(i + 1)[i as int] == c);
                assert((c as u32) < 128);
                assert(forall|k: int| 0 <= k < before.len() ==> before[k] == v@.take(i + 1)[k]);
                assert(all_ascii(before));
            }
        }
        i += 1;
    }
    assert(v@.take(v@.len() as int) =~= v@);
    r
}

/// The query for the days modified, with optional bounds on the date.
pub open spec fn modified_map_query_spec(min_date: Option<(int, int, int)>, max_date: Option<(int, int, int)>) -> Seq<char> {
    let base = "SELECT diary_date, last_modified FROM diary_entries"@;
    let lower = match min_date {
        Some(d) => "diary_date >= '"@ + date_display(d) + "'"@,
        None => Seq::empty(),
    };
    let upper = match max_date {
        Some(d) => "diary_date <= '"@ + date_display(d) + "'"@,
        None => Seq::empty(),
    };
    match (min_date, max_date) {
        (None, None) => base,
        (Some(_), None) => base + " WHERE "@ + lower,
        (None, Some(_)) => base + " WHERE "@ + upper,
        (Some(_), Some(_)) => base + " WHERE "@ + lower + " AND "@ + upper,
    }
}

/// The view of an optional date.
pub open spec fn opt_date(d: Option<Date>) -> Option<(int, int, int)> {
    match d {
        Some(x) => Some(x@),
        None => None,
    }
}

/// The query text for the modification times of the entries, limited to
/// `min_date..=max_date` where given.
pub fn modified_map_query(min_date: Option<Date>, max_date: Option<Date>) -> (r: String)
    ensures
        r@ == modified_map_query_spec(opt_date(min_date), opt_date(max_date)),
{
    let mut q = to_owned_string("SELECT diary_date, last_modified FROM diary_entries");
    if min_date.is_some() || max_date.is_some() {
        push_str(&mut q, " WHERE ");
    }
    if let Some(d) = min_date {
        push_str(&mut q, "diary_date >= '");
        crate::date::push_date(&mut q, &d);
        push_str(&mut q, "'");
    }
    if let Some(d) = max_date {
        if min_date.is_some() {
            push_str(&mut q, " AND ");
        }
        push_str(&mut q, "diary_date <= '");
        crate::date::push_date(&mut q, &d);
        push_str(&mut q, "'");
    }
    assert(q@ =~= modified_map_query_spec(opt_date(min_date), opt_date(max_date)));
    q
}

/// The query for the entries whose text holds the (sanitized) search text.
pub open spec fn entries_by_text_query_spec(s: Seq<char>) -> Seq<char> {
    "\n                SELECT * FROM diary_entries\n                WHERE diary_text like '%"@ + s
        + "%'\n                ORDER BY diary_date\n            "@
}

/// The query for the cache notes whose text holds the (sanitized) search
/// text.
pub open spec fn cache_by_text_query_spec(s: Seq<char>) -> Seq<char> {
    "\n                SELECT * FROM diary_cache\n                WHERE diary_text like '%"@ + s
        + "%'\n            "@
}

/// The query text for the entries holding `search_text`.
pub fn entries_by_text_query(search_text: &str) -> (r: String)
    ensures
        r@ == entries_by_text_query_spec(sanitize_spec(search_text@)),
        all_ascii(search_text@) ==> r@ == entries_by_text_query_spec(search_text@.filter(|c: char| keeps_ascii_in_search(c))),
{
    let s = sanitize_search_text(search_text);
    let mut q = to_owned_string(
        "\n                SELECT * FROM diary_entries\n                WHERE diary_text like '%",
    );
    push_str(&mut q, s.as_str());
    push_str(&mut q, "%'\n                ORDER BY diary_date\n            ");
    q
}

/// The query text for the cache notes holding `search_text`.
pub fn cache_by_text_query(search_text: &str) -> (r: String)
    ensures
        r@ == cache_by_text_query_spec(sanitize_spec(search_text@)),
        all_ascii(search_text@) ==> r@ == cache_by_text_query_spec(search_text@.filter(|c: char| keeps_ascii_in_search(c))),
{
    let s = sanitize_search_text(search_text);
    let mut q = to_owned_string(
        "\n                SELECT * FROM diary_cache\n                WHERE diary_text like '%",
    );
    push_str(&mut q, s.as_str());
    push_str(&mut q, "%'\n            ");
    q
}

// ---------------------------------------------------------------------------
// Results
// ---------------------------------------------------------------------------

/// A cache note found by text: its time as `[year]-[month]-[day]T[hour]:[minute]:[second]Z`,
/// a newline, its text.
pub open spec fn cache_search_line_spec(c: DiaryCache) -> Seq<char> {
    spec_time_format_datetime(c.diary_datetime@, search_datetime_format()@) + seq!['\n']
        + c.diary_text@
}

/// A cache note found by date: its time as `time` displays it, a newline,
/// its text.
pub open spec fn cache_date_line_spec(c: DiaryCache) -> Seq<char> {
    spec_time_display_datetime(c.diary_datetime@) + seq!['\n'] + c.diary_text@
}

fn cache_search_line(c: &DiaryCache) -> (r: String)
    ensures
        r@ == cache_search_line_spec(*c),
{
    let mut s = format_datetime(&c.diary_datetime, search_datetime_format());
    push_char(&mut s, '\n');
    push_str(&mut s, c.diary_text.as_str());
    assert(s@ =~= cache_search_line_spec(*c));
    s
}

fn cache_date_line(c: &DiaryCache) -> (r: String)
    ensures
        r@ == cache_date_line_spec(*c),
{
    let mut s = crate::date::display_datetime(&c.diary_datetime);
    push_char(&mut s, '\n');
    push_str(&mut s, c.diary_text.as_str());
    assert(s@ =~= cache_date_line_spec(*c));
    s
}

/// The lines shown for the entries of a text search.
pub open spec fn entry_lines(entries: Seq<DiaryEntries>) -> Seq<Seq<char>> {
    entries.map_values(|e: DiaryEntries| entry_line_spec(e.diary_date@, e.diary_text@))
}

/// The result of a search by text: the matching entries, then the matching
/// cache notes.
pub fn text_search_results(entries: &Vec<DiaryEntries>, notes: &Vec<DiaryCache>) -> (r: Vec<String>)
    ensures
        r@.map_values(|s: String| s@) == entry_lines(entries@) + notes@.map_values(
            |c: DiaryCache| cache_search_line_spec(c),
        ),
{
    let mut r: Vec<String> = Vec::new();
    let mut i: usize = 0;
    while i < entries.len()
        invariant
            i <= entries@.len(),
            r@.len() == i,
            forall|k: int| 0 <= k < i ==> #[trigger] r@[k]@ == entry_line_spec(entries@[k].diary_date@, entries@[k].diary_text@),
        decreases entries@.len() - i,
    {
        r.push(entry_line(&entries[i]));
        i += 1;
    }
    let mut j: usize = 0;
    while j < notes.len()
        invariant
            j <= notes@.len(),
            r@.len() == entries@.len() + j,
            forall|k: int| 0 <= k < entries@.len() ==> #[trigger] r@[k]@ == entry_line_spec(entries@[k].diary_date@, entries@[k].diary_text@),
            forall|k: int| 0 <= k < j ==> #[trigger] r@[entries@.len() + k]@ == cache_search_line_spec(notes@[k]),
        decreases notes@.len() - j,
    {
        r.push(cache_search_line(&notes[j]));
        j += 1;
    }
    proof {
        let lhs = r@.map_values(|s: String| s@);
        let rhs = entry_lines(entries@) + notes@.map_values(|c: DiaryCache| cache_search_line_spec(c));
        assert forall|k: int| 0 <= k < lhs.len() implies lhs[k] == rhs[k] by {
            if k >= entries@.len() {
                assert(r@[entries@.len() + (k - entries@.len())]@ == cache_search_line_spec(notes@[k - entries@.len()]));
            }
        }
        assert(lhs =~= rhs);
    }
    r
}

/// The lines shown for one date of a date search: the entry of the date,
/// then the cache notes whose local date (`local_dates`, one per note) is
/// that date.
pub open spec fn date_block(entry: DiaryEntries, notes: Seq<DiaryCache>, local_dates: Seq<Date>, date: Date) -> Seq<Seq<char>> {
    seq![entry_line_spec(entry.diary_date@, entry.diary_text@)] + Seq::new(
        notes.len(),
        |k: int| k,
    ).filter(|k: int| local_dates[k]@ == date@).map_values(|k: int| cache_date_line_spec(notes[k]))
}

/// The lines of a date search, date after date.
pub open spec fn date_search_lines(dates: Seq<Date>, entries: Seq<DiaryEntries>, notes: Seq<DiaryCache>, local_dates: Seq<Date>) -> Seq<Seq<char>>
    decreases dates.len(),
{
    if dates.len() == 0 || entries.len() < dates.len() {
        Seq::empty()
    } else {
        date_search_lines(dates.drop_last(), entries.take(dates.len() - 1), notes, local_dates)
            + date_block(entries[dates.len() - 1], notes, local_dates, dates.last())
    }
}

/// The position of the first date without an entry, if any.
pub open spec fn first_missing(found: Seq<Option<DiaryEntries>>) -> Option<int> {
    if exists|k: int| 0 <= k < found.len() && found[k] is None {
        Some(choose|k: int| 0 <= k < found.len() && found[k] is None && forall|m: int| 0 <= m < k ==> found[m] is Some)
    } else {
        None
    }
}

/// The result of a search by dates (already sorted): for each date, its
/// entry (`found`, looked up in the same order) and the cache notes of that
/// local date (`local_dates[k]` is the local date of `notes[k]`). A date
/// without an entry is an error.
pub fn date_search_results(dates: &Vec<Date>, found: &Vec<Option<DiaryEntries>>, notes: &Vec<DiaryCache>, local_dates: &Vec<Date>) -> (r: Result<Vec<String>, SearchError>)
    requires
        found@.len() == dates@.len(),
        local_dates@.len() == notes@.len(),
    ensures
        match r {
            Ok(v) => (forall|k: int| 0 <= k < found@.len() ==> found@[k] is Some) && v@.map_values(
                |s: String| s@,
            ) == date_search_lines(
                dates@,
                found@.map_values(|o: Option<DiaryEntries>| o.unwrap()),
                notes@,
                local_dates@,
            ),
            Err(e) => exists|k: int|
                0 <= k < found@.len() && found@[k] is None && (forall|m: int| 0 <= m < k ==> found@[m] is Some) && e
                    == SearchError::MissingEntry(dates@[k]),
        },
{
    let ghost unwrapped = found@.map_values(|o: Option<DiaryEntries>| o.unwrap());
    let mut r: Vec<String> = Vec::new();
    let mut i: usize = 0;
    assert(dates@.take(0) =~= Seq::<Date>::empty());
    while i < dates.len()
        invariant
            i <= dates@.len(),
            found@.len() == dates@.len(),
            local_dates@.len() == notes@.len(),
            unwrapped == found@.map_values(|o: Option<DiaryEntries>| o.unwrap()),
            forall|m: int| 0 <= m < i ==> found@[m] is Some,
            r@.map_values(|s: String| s@) == date_search_lines(
                dates@.take(i as int),
                unwrapped.take(i as int),
                notes@,
                local_dates@,
            ),
        decreases dates@.len() - i,
    {
        let entry = match &found[i] {
            Some(e) => e,
            None => {
                return Err(SearchError::MissingEntry(dates[i]));
            },
        };
        let ghost before = r@;
        r.push(entry_line(entry));
        let mut k: usize = 0;
        let ghost idx = Seq::new(notes@.len(), |k: int| k);
        let ghost pick = |k: int| local_dates@[k]@ == dates@[i as int]@;
        assert(idx.take(0) =~= Seq::<int>::empty());
        proof {
            reveal_with_fuel(Seq::<_>::filter, 1);
            assert(idx.take(0).filter(pick) =~= Seq::<int>::empty());
            assert(r@.map_values(|s: String| s@) =~= before.map_values(|s: String| s@) + seq![
                entry_line_spec(entry.diary_date@, entry.diary_text@),
            ] + idx.take(0).filter(pick).map_values(|j: int| cache_date_line_spec(notes@[j])));
        }
        while k < notes.len()
            invariant
                k <= notes@.len(),
                i < dates@.len(),
                local_dates@.len() == notes@.len(),
                idx == Seq::new(notes@.len(), |k: int| k),
                pick == (|k: int| local_dates@[k]@ == dates@[i as int]@),
                r@.map_values(|s: String| s@) == before.map_values(|s: String| s@) + seq![
                    entry_line_spec(entry.diary_date@, entry.diary_text@),
                ] + idx.take(k as int).filter(pick).map_values(|j: int| cache_date_line_spec(notes@[j])),
            decreases notes@.len() - k,
        {
            let ghost prev = r@;
            proof {
                reveal_with_fuel(Seq::<_>::filter, 1);
                assert(idx.take(k + 1).drop_last() =~= idx.take(k as int));
                assert(idx.take(k + 1).last() == k);
            }
            if local_dates[k].same_day(&dates[i]) {
                r.push(cache_date_line(&notes[k]));
                proof {
                    assert(r@.map_values(|s: String| s@) =~= prev.map_values(|s: String| s@).push(
                        cache_date_line_spec(notes@[k as int]),
                    ));
                }
            }
            k += 1;
        }
        proof {
            assert(idx.take(notes@.len() as int) =~= idx);
            let d2 = dates@.take(i + 1);
            assert(d2.drop_last() =~= dates@.take(i as int));
            assert(unwrapped.take(i + 1).take(i as int) =~= unwrapped.take(i as int));
            assert(unwrapped.take(i + 1)[i as int] == *entry);
            assert(d2.last() == dates@[i as int]);
        }
        i += 1;
    }
    proof {
        assert(dates@.take(dates@.len() as int) =~= dates@);
        assert(unwrapped.take(dates@.len() as int) =~= unwrapped);
    }
    Ok(r)
}


/// Narrowing a search narrows its result: the dates of a day are among the
/// dates of its month, and those are among the dates of its year.
pub proof fn law_narrower_search_subset(dates: Seq<Date>, year: Option<int>, month: Option<int>, day: Option<int>, d: Date)
    ensures
        dates.filter(matches_pred(year, month, day)).contains(d) ==> dates.filter(matches_pred(year, month, None)).contains(d),
        dates.filter(matches_pred(year, month, None)).contains(d) ==> dates.filter(matches_pred(year, None, None)).contains(d),
{
    broadcast use vstd::seq_lib::group_filter_ensures;

    if dates.filter(matches_pred(year, month, day)).contains(d) {
        dates.lemma_filter_contains_rev(matches_pred(year, month, day), d);
        let k = choose|k: int| 0 <= k < dates.filter(matches_pred(year, month, day)).len() && dates.filter(matches_pred(year, month, day))[k] == d;
        assert(matches_pred(year, month, day)(d));
        let i = choose|i: int| 0 <= i < dates.len() && dates[i] == d;
        assert(matches_pred(year, month, None)(dates[i]));
    }
    if dates.filter(matches_pred(year, month, None)).contains(d) {
        dates.lemma_filter_contains_rev(matches_pred(year, month, None), d);
        let k = choose|k: int| 0 <= k < dates.filter(matches_pred(year, month, None)).len() && dates.filter(matches_pred(year, month, None))[k] == d;
        assert(matches_pred(year, month, None)(d));
        let i = choose|i: int| 0 <= i < dates.len() && dates[i] == d;
        assert(matches_pred(year, None, None)(dates[i]));
    }
}

} // verus!
