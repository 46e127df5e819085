//! The commands of the command line front end.
use vstd::prelude::*;

use crate::conflicts::{conflict_display_line, instant_in_range, conflict_display_spec, parse_conflict_timestamp, replace_z_spec, spec_time_parse_rfc3339};
use crate::date::{
    conflict_datetime_format, date_format, format_datetime, parse_date, spec_time_format_datetime, spec_time_parse_date,
    valid_date, Date, DateTimeWrapper,
};
use crate::models::{instant_line, instant_line_spec, DiaryConflict};
use crate::sorting::{distinct_sorted, sort_dedup};
use crate::text::{join, join_seq, str_chars, views};

verus! {

/// A command of the command line front end.
#[derive(Clone, Copy, PartialEq, Eq, Structural, Debug)]
pub enum DiaryAppCommands {
    Search,
    Insert,
    Sync,
    Serialize,
    ClearCache,
    ListConflicts,
    ShowConflict,
    RemoveConflict,
    RunMigrations,
}

/// The error for a word that names no command.
#[derive(Clone, Copy, PartialEq, Eq, Structural, Debug)]
pub struct CommandParseError;

impl CommandParseError {
    /// `Parse failure`.
    pub fn message(&self) -> (r: &'static str)
        ensures
            r@ == "Parse failure"@,
    {
        "Parse failure"
    }
}

/// The command a word names, if any.
pub open spec fn command_named(s: Seq<char>) -> Option<DiaryAppCommands> {
    if s == "search"@ || s == "s"@ {
        Some(DiaryAppCommands::Search)
    } else if s == "insert"@ || s == "i"@ {
        Some(DiaryAppCommands::Insert)
    } else if s == "sync"@ {
        Some(DiaryAppCommands::Sync)
    } else if s == "ser"@ || s == "serialize"@ {
        Some(DiaryAppCommands::Serialize)
    } else if s == "clear"@ || s == "clear_cache"@ {
        Some(DiaryAppCommands::ClearCache)
    } else if s == "list"@ || s == "list_conflicts"@ {
        Some(DiaryAppCommands::ListConflicts)
    } else if s == "show"@ || s == "show_conflict"@ {
        Some(DiaryAppCommands::ShowConflict)
    } else if s == "remove"@ || s == "remove_conflict"@ {
        Some(DiaryAppCommands::RemoveConflict)
    } else if s == "run-migrations"@ {
        Some(DiaryAppCommands::RunMigrations)
    } else {
        None
    }
}

/// Whether the characters `v` spell the string slice `t`.
pub fn chars_equal(v: &Vec<char>, t: &str) -> (r: bool)
    ensures
        r == (v@ == t@),
{
    let w = str_chars(t);
    if v.len() != w.len() {
        return false;
    }
    let mut i: usize = 0;
    while i < v.len()
        invariant
            v@.len() == w@.len(),
            w@ == t@,
            i <= v@.len(),
            forall|k: int| 0 <= k < i ==> v@[k] == w@[k],
        decreases v@.len() - i,
    {
        if v[i] != w[i] {
            return false;
        }
        i += 1;
    }
    assert(v@ =~= w@);
    true
}

impl DiaryAppCommands {
    /// The command named by `s`: `search`/`s`, `insert`/`i`, `sync`,
    /// `ser`/`serialize`, `clear`/`clear_cache`, `list`/`list_conflicts`,
    /// `show`/`show_conflict`, `remove`/`remove_conflict`, `run-migrations`.
    pub fn from_str(s: &str) -> (r: Result<DiaryAppCommands, CommandParseError>)
        ensures
            r matches Ok(c) ==> command_named(s@) == Some(c),
            r is Err ==> command_named(s@) is None,
    {
        let v = str_chars(s);
        if chars_equal(&v, "search") || chars_equal(&v, "s") {
            Ok(DiaryAppCommands::Search)
        } else if chars_equal(&v, "insert") || chars_equal(&v, "i") {
            Ok(DiaryAppCommands::Insert)
        } else if chars_equal(&v, "sync") {
            Ok(DiaryAppCommands::Sync)
        } else if chars_equal(&v, "ser") || chars_equal(&v, "serialize") {
            Ok(DiaryAppCommands::Serialize)
        } else if chars_equal(&v, "clear") || chars_equal(&v, "clear_cache") {
            Ok(DiaryAppCommands::ClearCache)
        } else if chars_equal(&v, "list") || chars_equal(&v, "list_conflicts") {
            Ok(DiaryAppCommands::ListConflicts)
        } else if chars_equal(&v, "show") || chars_equal(&v, "show_conflict") {
            Ok(DiaryAppCommands::ShowConflict)
        } else if chars_equal(&v, "remove") || chars_equal(&v, "remove_conflict") {
            Ok(DiaryAppCommands::RemoveConflict)
        } else if chars_equal(&v, "run-migrations") {
            Ok(DiaryAppCommands::RunMigrations)
        } else {
            Err(CommandParseError)
        }
    }
}

impl core::str::FromStr for DiaryAppCommands {
    type Err = CommandParseError;

    fn from_str(s: &str) -> (r: Result<DiaryAppCommands, CommandParseError>)
        ensures
            r matches Ok(c) ==> command_named(s@) == Some(c),
            r is Err ==> command_named(s@) is None,
    {
        DiaryAppCommands::from_str(s)
    }
}

// ---------------------------------------------------------------------------
// What the commands decide
// ---------------------------------------------------------------------------

/// The day `list_conflicts` is asked for: the arguments written together,
/// read as `YYYY-MM-DD`; none when they name no day.
pub fn conflict_listing_day(text: &Vec<String>) -> (r: Option<Date>)
    ensures
        r matches Some(d) ==> spec_time_parse_date(join_seq(views(text@), ""@), date_format()@) == Some(d@),
        r is None ==> match spec_time_parse_date(join_seq(views(text@), ""@), date_format()@) {
            None => true,
            Some(v) => !valid_date(v.0, v.1, v.2),
        },
{
    let t = join(text, "");
    parse_date(t.as_str(), date_format())
}

/// Whether `list_conflicts` without a day prints the days that have
/// conflicts (more than one of them) rather than the conflicts themselves.
pub fn lists_conflict_days(days: &Vec<Date>) -> (r: bool)
    ensures
        r == (days@.len() > 1),
{
    days.len() > 1
}

/// The instants of a day's conflicts as `list_conflicts` prints them: each
/// once, in order, with nanoseconds.
pub fn conflict_timestamp_lines(stamps: &Vec<DateTimeWrapper>) -> (r: Vec<String>)
    ensures
        views(r@) == distinct_sorted(stamps@).map_values(
            |t: DateTimeWrapper| spec_time_format_datetime(t@, conflict_datetime_format()@),
        ),
{
    let d = sort_dedup(stamps);
    let mut r: Vec<String> = Vec::new();
    let mut i: usize = 0;
    while i < d.len()
        invariant
            i <= d@.len(),
            views(r@) == d@.take(i as int).map_values(
                |t: DateTimeWrapper| spec_time_format_datetime(t@, conflict_datetime_format()@),
            ),
        decreases d@.len() - i,
    {
        let ghost before = r@;
        let line = format_datetime(&d[i], conflict_datetime_format());
        let ghost lv = line@;
        r.push(line);
        proof {
            assert(views(r@) =~= views(before).push(lv));
            assert(d@.take(i + 1) =~= d@.take(i as int).push(d@[i as int]));
            assert(views(r@) =~= d@.take(i + 1).map_values(
                |t: DateTimeWrapper| spec_time_format_datetime(t@, conflict_datetime_format()@),
            ));
        }
        i += 1;
    }
    assert(d@.take(d@.len() as int) =~= d@);
    r
}

/// The instant `show_conflict` and `remove_conflict` are asked for: the
/// arguments written together, with `Z` as `+00:00`, read as RFC 3339.
pub fn conflict_instant(text: &Vec<String>) -> (r: Option<DateTimeWrapper>)
    ensures
        r matches Some(t) ==> spec_time_parse_rfc3339(replace_z_spec(join_seq(views(text@), ""@))) == Some(t@),
        r is None <==> !instant_in_range(spec_time_parse_rfc3339(replace_z_spec(join_seq(views(text@), ""@)))),
{
    let t = join(text, "");
    parse_conflict_timestamp(t.as_str())
}

/// What `show_conflict` prints: `datetime {instant}`, then each line of the
/// conflict, removed ones in red and added ones in green.
pub fn show_conflict_lines(instant: &DateTimeWrapper, conflicts: &Vec<DiaryConflict>) -> (r: Vec<String>)
    ensures
        views(r@) == seq![instant_line_spec("datetime "@, instant@)] + conflicts@.map_values(
            |c: DiaryConflict| conflict_display_spec(c.diff_type@, c.diff_text@),
        ),
{
    let mut r: Vec<String> = Vec::new();
    r.push(instant_line("datetime ", instant));
    let mut i: usize = 0;
    while i < conflicts.len()
        invariant
            i <= conflicts@.len(),
            views(r@) == seq![instant_line_spec("datetime "@, instant@)] + conflicts@.take(i as int).map_values(
                |c: DiaryConflict| conflict_display_spec(c.diff_type@, c.diff_text@),
            ),
        decreases conflicts@.len() - i,
    {
        let ghost before = r@;
        let line = conflict_display_line(&conflicts[i]);
        let ghost lv = line@;
        r.push(line);
        proof {
            assert(views(r@) =~= views(before).push(lv));
            assert(conflicts@.take(i + 1) =~= conflicts@.take(i as int).push(conflicts@[i as int]));
            assert(views(r@) =~= seq![instant_line_spec("datetime "@, instant@)] + conflicts@.take(i + 1).map_values(
                |c: DiaryConflict| conflict_display_spec(c.diff_type@, c.diff_text@),
            ));
        }
        i += 1;
    }
    assert(conflicts@.take(conflicts@.len() as int) =~= conflicts@);
    r
}

} // verus!
