//! The local side of synchronisation: the day files in the diary directory,
//! the yearly export files, the backup directory and the merge of cached
//! notes into the entries of their days.
use vstd::prelude::*;

use crate::date::{
    date_key, date_minus_days, diary_file_format, parse_date, spec_time_date_minus_days, valid_date,
    whole_seconds, Date, DateTimeWrapper,
};
use crate::models::{byte_len, entry_line_spec, text_len, DiaryCache, DiaryEntries};
use crate::s3_sync::file_name_date;
use crate::sorting::{key_order, sort_by_key};
use crate::text::{
    copy_string, int_decimal, join, join_seq, nat_decimal, push_char, push_decimal, push_signed_decimal,
    push_str, to_owned_string, trim, trim_seq, views,
};

verus! {

// ---------------------------------------------------------------------------
// Importing day files
// ---------------------------------------------------------------------------

/// The date of a day file worth importing: its name must be
/// `YYYY-MM-DD.txt` and it must not be empty.
pub fn importable_file(name: &str, size: u64) -> (r: Option<Date>)
    ensures
        r matches Some(d) ==> size != 0 && file_name_date(name@) == Some(d@),
        r is None ==> size == 0 || file_name_date(name@) is None,
{
    match parse_date(name, diary_file_format()) {
        Some(d) => if size == 0 {
            None
        } else {
            Some(d)
        },
        None => None,
    }
}

/// Whether a day file replaces the stored entry: when the diary has no entry
/// for the day, or when the file is more than a second newer than it.
pub fn local_import_check(stored_modified: Option<DateTimeWrapper>, file_modified: &DateTimeWrapper) -> (r: bool)
    ensures
        r == match stored_modified {
            None => true,
            Some(cur) => whole_seconds(cur@ - file_modified@) < -1,
        },
{
    match stored_modified {
        None => true,
        Some(cur) => cur.whole_seconds_since(file_modified) < -1,
    }
}

/// The entry made from the contents of a day file: the trimmed text, or none
/// when nothing is left.
pub fn local_entry(date: Date, contents: &str, file_modified: DateTimeWrapper) -> (r: Option<DiaryEntries>)
    ensures
        trim_seq(contents@).len() == 0 ==> r is None,
        trim_seq(contents@).len() > 0 ==> (r matches Some(e) && e.diary_date == date && e.diary_text@ == trim_seq(contents@) && e.last_modified == file_modified),
{
    let t = trim(contents);
    if crate::text::str_chars(t.as_str()).len() == 0 {
        None
    } else {
        Some(DiaryEntries { diary_date: date, diary_text: t, last_modified: file_modified })
    }
}

/// The earliest of the dates, if any.
pub fn earliest_date(dates: &Vec<Date>) -> (r: Option<Date>)
    ensures
        dates@.len() == 0 ==> r is None,
        dates@.len() > 0 ==> (r matches Some(m) && dates@.contains(m) && forall|k: int| 0 <= k < dates@.len() ==> date_key(m@) <= date_key(#[trigger] dates@[k]@)),
{
    if dates.len() == 0 {
        return None;
    }
    let mut m = dates[0];
    let mut i: usize = 1;
    while i < dates.len()
        invariant
            1 <= i <= dates@.len(),
            dates@.contains(m),
            forall|k: int| 0 <= k < i ==> date_key(m@) <= date_key(#[trigger] dates@[k]@),
        decreases dates@.len() - i,
    {
        if dates[i].key() < m.key() {
            m = dates[i];
        }
        i += 1;
    }
    Some(m)
}

// ---------------------------------------------------------------------------
// Cleaning up the day files
// ---------------------------------------------------------------------------

/// Whether a day file is old enough to go: its date is on or before
/// `previous_date` (four days back).
pub fn is_stale_file(date: &Date, previous_date: &Date) -> (r: bool)
    ensures
        r == (date_key(date@) <= date_key(previous_date@)),
{
    date.key() <= previous_date.key()
}

/// Whether counting back gave a day of the calendar.
pub open spec fn counts_back_to_valid(r: Option<(int, int, int)>) -> bool {
    match r {
        Some(v) => valid_date(v.0, v.1, v.2),
        None => false,
    }
}

/// The four days whose files the diary keeps: today and the three days
/// before it, as `time` counts back; `None` where that leaves the calendar.
pub fn recent_dates(today: &Date) -> (r: Option<Vec<Date>>)
    ensures
        r matches Some(v) ==> v@.len() == 4 && forall|k: int| 0 <= k < 4 ==> spec_time_date_minus_days(today@.0, today@.1, today@.2, k) == Some(#[trigger] v@[k]@),
        r is None <==> exists|k: int| 0 <= k < 4 && !counts_back_to_valid(#[trigger] spec_time_date_minus_days(today@.0, today@.1, today@.2, k)),
{
    let mut v: Vec<Date> = Vec::new();
    let mut i: i64 = 0;
    while i < 4
        invariant
            0 <= i <= 4,
            v@.len() == i,
            forall|k: int| 0 <= k < i ==> spec_time_date_minus_days(today@.0, today@.1, today@.2, k) == Some(#[trigger] v@[k]@),
            forall|k: int| 0 <= k < i ==> counts_back_to_valid(#[trigger] spec_time_date_minus_days(today@.0, today@.1, today@.2, k)),
        decreases 4 - i,
    {
        match date_minus_days(today, i) {
            Some(d) => v.push(d),
            None => {
                assert(!counts_back_to_valid(spec_time_date_minus_days(today@.0, today@.1, today@.2, i as int)));
                return None;
            },
        }
        i += 1;
    }
    assert forall|k: int| 0 <= k < 4 implies counts_back_to_valid(#[trigger] spec_time_date_minus_days(today@.0, today@.1, today@.2, k)) by {}
    Some(v)
}

/// What to do for one of the recent days.
#[derive(Clone, Copy, PartialEq, Eq, Structural, Debug)]
pub enum CleanupAction {
    /// File and entry agree well enough.
    Nothing,
    /// The file is older than the entry: look at the stored entry; rewrite
    /// the file (of this many bytes) from it if the entry is longer.
    RefreshFromEntry(usize),
    /// A file exists but no entry: store an empty entry.
    CreateEmptyEntry,
    /// No file exists: write one from the stored entry, or an empty one
    /// together with an empty entry.
    CreateFile,
}

/// The action for a recent day, given its file (modification time and size
/// in bytes) and the modification time of its entry.
pub fn cleanup_action(file: Option<(DateTimeWrapper, usize)>, stored_modified: Option<DateTimeWrapper>) -> (r: CleanupAction)
    ensures
        r == match file {
            None => CleanupAction::CreateFile,
            Some((file_mod, size)) => match stored_modified {
                None => CleanupAction::CreateEmptyEntry,
                Some(db_mod) => if file_mod@ < db_mod@ {
                    CleanupAction::RefreshFromEntry(size)
                } else {
                    CleanupAction::Nothing
                },
            },
        },
{
    match file {
        None => CleanupAction::CreateFile,
        Some((file_mod, size)) => match stored_modified {
            None => CleanupAction::CreateEmptyEntry,
            Some(db_mod) => {
                if file_mod.is_before(&db_mod) {
                    CleanupAction::RefreshFromEntry(size)
                } else {
                    CleanupAction::Nothing
                }
            },
        },
    }
}

/// Whether a file of `file_size` bytes is rewritten from the stored entry.
pub fn refresh_rewrites(stored: &DiaryEntries, file_size: usize) -> (r: bool)
    ensures
        r == (byte_len(stored.diary_text@) > file_size),
{
    text_len(&stored.diary_text) > file_size
}

// ---------------------------------------------------------------------------
// The yearly export files
// ---------------------------------------------------------------------------

/// The name of the export file of a year, `diary_{year}.txt`.
pub open spec fn year_file_name_spec(year: int) -> Seq<char> {
    "diary_"@ + int_decimal(year) + ".txt"@
}

/// The name of the export file of a year.
pub fn year_file_name(year: i32) -> (r: String)
    ensures
        r@ == year_file_name_spec(year as int),
{
    let mut s = to_owned_string("diary_");
    push_signed_decimal(&mut s, year as i64);
    push_str(&mut s, ".txt");
    s
}

/// The latest modification among the entries of a year, never before the
/// start of year 0.
pub open spec fn year_latest_spec(mods: Seq<(Date, DateTimeWrapper)>, year: int) -> int
    decreases mods.len(),
{
    if mods.len() == 0 {
        -62_167_219_200_000_000_000
    } else {
        let rest = year_latest_spec(mods.drop_last(), year);
        let m = mods.last();
        if m.0@.0 == year && m.1@ > rest {
            m.1@
        } else {
            rest
        }
    }
}

/// The latest modification time of the entries of `year`, as the yearly
/// export compares it with its file.
pub fn year_latest_modification(mods: &Vec<(Date, DateTimeWrapper)>, year: i32) -> (r: DateTimeWrapper)
    ensures
        r@ == year_latest_spec(mods@, year as int),
{
    let mut best = DateTimeWrapper::year_zero();
    let mut i: usize = 0;
    assert(mods@.take(0) =~= Seq::<(Date, DateTimeWrapper)>::empty());
    while i < mods.len()
        invariant
            i <= mods@.len(),
            best@ == year_latest_spec(mods@.take(i as int), year as int),
        decreases mods@.len() - i,
    {
        assert(mods@.take(i + 1).drop_last() =~= mods@.take(i as int));
        let (d, t) = mods[i];
        if d.year() == year && best.is_before(&t) {
            best = t;
        }
        i += 1;
    }
    assert(mods@.take(mods@.len() as int) =~= mods@);
    best
}

/// Whether the export file of a year is current: it exists and was modified
/// no earlier than the latest entry of the year.
pub fn year_file_is_current(file_modified: Option<DateTimeWrapper>, latest: &DateTimeWrapper) -> (r: bool)
    ensures
        r == (file_modified matches Some(m) && m@ >= latest@),
{
    match file_modified {
        Some(m) => !m.is_before(latest),
        None => false,
    }
}

/// The contents of a year's export file: each entry as
/// `{date}\n\n{text}\n\n`.
pub open spec fn year_file_text_spec(entries: Seq<DiaryEntries>) -> Seq<char>
    decreases entries.len(),
{
    if entries.len() == 0 {
        Seq::empty()
    } else {
        let e = entries.last();
        year_file_text_spec(entries.drop_last()) + crate::date::date_display(e.diary_date@) + "\n\n"@
            + e.diary_text@ + "\n\n"@
    }
}

/// The contents of a year's export file.
pub fn year_file_text(entries: &Vec<DiaryEntries>) -> (r: String)
    ensures
        r@ == year_file_text_spec(entries@),
{
    let mut s = String::new();
    let mut i: usize = 0;
    assert(entries@.take(0) =~= Seq::<DiaryEntries>::empty());
    while i < entries.len()
        invariant
            i <= entries@.len(),
            s@ == year_file_text_spec(entries@.take(i as int)),
        decreases entries@.len() - i,
    {
        assert(entries@.take(i + 1).drop_last() =~= entries@.take(i as int));
        crate::date::push_date(&mut s, &entries[i].diary_date);
        push_str(&mut s, "\n\n");
        push_str(&mut s, entries[i].diary_text.as_str());
        push_str(&mut s, "\n\n");
        assert(s@ =~= year_file_text_spec(entries@.take(i + 1)));
        i += 1;
    }
    assert(entries@.take(entries@.len() as int) =~= entries@);
    s
}

/// The report line of a year's export: `{year} {count}`.
pub open spec fn year_report_spec(year: int, count: nat) -> Seq<char> {
    int_decimal(year) + " "@ + nat_decimal(count)
}

/// The report line of a year's export (`count` is 0 when the file was
/// current).
pub fn year_report(year: i32, count: usize) -> (r: String)
    ensures
        r@ == year_report_spec(year as int, count as nat),
{
    let mut s = String::new();
    push_signed_decimal(&mut s, year as i64);
    push_str(&mut s, " ");
    push_decimal(&mut s, count as u64);
    assert(s@ =~= year_report_spec(year as int, count as nat));
    s
}

/// Whether the groups split `sorted` into its years, in order: each group
/// is a nonempty run of one year, and the runs' years increase.
pub open spec fn groups_by_year(groups: Seq<(i32, Seq<Date>)>, sorted: Seq<Date>) -> bool {
    &&& flatten_groups(groups) == sorted
    &&& forall|g: int| 0 <= g < groups.len() ==> #[trigger] groups[g].1.len() > 0
    &&& forall|g: int, k: int| 0 <= g < groups.len() && 0 <= k < groups[g].1.len() ==> (#[trigger] groups[g].1[k])@.0 == groups[g].0
    &&& forall|g: int, h: int| 0 <= g < h < groups.len() ==> #[trigger] groups[g].0 < #[trigger] groups[h].0
}

/// The groups' dates, one group after the other.
pub open spec fn flatten_groups(groups: Seq<(i32, Seq<Date>)>) -> Seq<Date>
    decreases groups.len(),
{
    if groups.len() == 0 {
        Seq::empty()
    } else {
        flatten_groups(groups.drop_last()) + groups.last().1
    }
}

proof fn lemma_flatten_push(gs: Seq<(i32, Seq<Date>)>, g: (i32, Seq<Date>))
    ensures
        flatten_groups(gs.push(g)) == flatten_groups(gs) + g.1,
{
    assert(gs.push(g).drop_last() =~= gs);
}

proof fn lemma_flatten_extend_last(gs: Seq<(i32, Seq<Date>)>, d: Date)
    requires
        gs.len() > 0,
    ensures
        flatten_groups(gs.drop_last().push((gs.last().0, gs.last().1.push(d)))) == flatten_groups(gs).push(d),
{
    lemma_flatten_push(gs.drop_last(), (gs.last().0, gs.last().1.push(d)));
    assert(gs.drop_last().push(gs.last()) =~= gs);
    lemma_flatten_push(gs.drop_last(), gs.last());
    assert(flatten_groups(gs.drop_last()) + gs.last().1.push(d) =~= (flatten_groups(gs.drop_last()) + gs.last().1).push(d));
}

/// The views of year groups.
pub open spec fn group_views(groups: Seq<(i32, Vec<Date>)>) -> Seq<(i32, Seq<Date>)> {
    groups.map_values(|g: (i32, Vec<Date>)| (g.0, g.1@))
}

/// The dates sorted and split by year, one group per export file.
pub fn year_groups(dates: &Vec<Date>) -> (r: Vec<(i32, Vec<Date>)>)
    ensures
        groups_by_year(group_views(r@), dates@.sort_by(key_order::<Date>(false))),
{
    let sorted = sort_by_key(dates, false);
    let mut r: Vec<(i32, Vec<Date>)> = Vec::new();
    let mut current: Vec<Date> = Vec::new();
    let mut current_year: i32 = 0;
    let mut i: usize = 0;
    assert(sorted@.take(0) =~= Seq::<Date>::empty());
    while i < sorted.len()
        invariant
            i <= sorted@.len(),
            vstd::relations::sorted_by(sorted@, key_order::<Date>(false)),
            current@.len() == 0 <==> i == 0,
            groups_by_year(group_views(r@).push((current_year, current@)), sorted@.take(i as int)) || i == 0,
            i == 0 ==> r@.len() == 0,
            i > 0 ==> current_year == sorted@[i - 1]@.0,
        decreases sorted@.len() - i,
    {
        let d = sorted[i];
        let y = d.year();
        let ghost gs_before = group_views(r@).push((current_year, current@));
        proof {
            assert(sorted@.take(i + 1) =~= sorted@.take(i as int).push(d));
        }
        if i > 0 && y == current_year {
            current.push(d);
            proof {
                let gs = group_views(r@).push((current_year, current@));
                assert(gs_before.drop_last() =~= group_views(r@));
                assert(gs =~= gs_before.drop_last().push((gs_before.last().0, gs_before.last().1.push(d))));
                lemma_flatten_extend_last(gs_before, d);
                assert forall|g: int, k: int| 0 <= g < gs.len() && 0 <= k < gs[g].1.len() implies (#[trigger] gs[g].1[k])@.0 == gs[g].0 by {
                    if g < gs.len() - 1 {
                        assert(gs[g] == gs_before[g]);
                    } else if k < gs_before.last().1.len() {
                        assert(gs[g].1[k] == gs_before.last().1[k]);
                    }
                }
                assert forall|g: int, h: int| 0 <= g < h < gs.len() implies #[trigger] gs[g].0 < #[trigger] gs[h].0 by {
                    assert(gs[g].0 == gs_before[g].0);
                    assert(gs[h].0 == gs_before[h].0);
                }
                assert forall|g: int| 0 <= g < gs.len() implies #[trigger] gs[g].1.len() > 0 by {
                    if g < gs.len() - 1 {
                        assert(gs[g] == gs_before[g]);
                    }
                }
            }
        } else {
            if i > 0 {
                r.push((current_year, current));
            }
            let mut fresh: Vec<Date> = Vec::new();
            fresh.push(d);
            current = fresh;
            current_year = y;
            proof {
                let gs = group_views(r@).push((current_year, current@));
                if i == 0 {
                    assert(group_views(r@) =~= Seq::<(i32, Seq<Date>)>::empty());
                    lemma_flatten_push(Seq::<(i32, Seq<Date>)>::empty(), (y, seq![d]));
                    assert(flatten_groups(Seq::<(i32, Seq<Date>)>::empty()) =~= Seq::<Date>::empty());
                    assert(gs =~= seq![(y, seq![d])]);
                    assert(sorted@.take(1) =~= seq![d]);
                    assert(flatten_groups(gs) =~= seq![d]);
                } else {
                    assert(group_views(r@) =~= gs_before);
                    lemma_flatten_push(gs_before, (y, seq![d]));
                    assert(flatten_groups(gs) =~= flatten_groups(gs_before).push(d));
                    // the previous date is in an earlier year
                    let prev = sorted@[i - 1];
                    assert(crate::sorting::key_le::<Date>()(prev, d));
                    Date::lemma_key_year_order(prev, d);
                    assert(gs_before.last().0 < y);
                    assert forall|g: int, h: int| 0 <= g < h < gs.len() implies #[trigger] gs[g].0 < #[trigger] gs[h].0 by {
                        assert(gs[g].0 == gs_before[g].0);
                        if h < gs.len() - 1 {
                            assert(gs[h].0 == gs_before[h].0);
                        } else if g < gs_before.len() - 1 {
                            assert(gs_before[g].0 < gs_before[gs_before.len() - 1].0);
                        }
                    }
                    assert forall|g: int, k: int| 0 <= g < gs.len() && 0 <= k < gs[g].1.len() implies (#[trigger] gs[g].1[k])@.0 == gs[g].0 by {
                        if g < gs.len() - 1 {
                            assert(gs[g] == gs_before[g]);
                        }
                    }
                    assert forall|g: int| 0 <= g < gs.len() implies #[trigger] gs[g].1.len() > 0 by {
                        if g < gs.len() - 1 {
                            assert(gs[g] == gs_before[g]);
                        }
                    }
                }
            }
        }
        i += 1;
    }
    proof {
        assert(sorted@.take(sorted@.len() as int) =~= sorted@);
    }
    if sorted.len() > 0 {
        let ghost gs_last = group_views(r@).push((current_year, current@));
        r.push((current_year, current));
        proof {
            assert(group_views(r@) =~= gs_last);
        }
    } else {
        proof {
            assert(group_views(r@) =~= Seq::<(i32, Seq<Date>)>::empty());
            assert(flatten_groups(group_views(r@)) =~= Seq::<Date>::empty());
            assert(sorted@ =~= Seq::<Date>::empty());
        }
    }
    r
}

// ---------------------------------------------------------------------------
// Merging cached notes into entries
// ---------------------------------------------------------------------------

/// The positions `0..n` whose date is `d`, in order.
pub open spec fn positions_with(dates: Seq<Date>, n: int, d: Date) -> Seq<int> {
    Seq::new(n as nat, |k: int| k).filter(|k: int| dates[k]@ == d@)
}

proof fn lemma_positions_step(dates: Seq<Date>, i: int, d: Date)
    requires
        0 <= i,
    ensures
        positions_with(dates, i + 1, d) == if dates[i]@ == d@ {
            positions_with(dates, i, d).push(i)
        } else {
            positions_with(dates, i, d)
        },
{
    reveal_with_fuel(Seq::<_>::filter, 1);
    let all = Seq::new((i + 1) as nat, |k: int| k);
    assert(all.drop_last() =~= Seq::new(i as nat, |k: int| k));
    assert(all.last() == i);
}

/// Whether `groups` gathers the positions of `dates` by date: one group per
/// distinct date that occurs, holding all positions of that date in order
/// (so no group is empty).
pub open spec fn grouped_by_date(groups: Seq<(Date, Seq<int>)>, dates: Seq<Date>, n: int) -> bool {
    &&& forall|g: int| 0 <= g < groups.len() ==> #[trigger] groups[g].1 == positions_with(dates, n, groups[g].0)
    &&& forall|g: int| 0 <= g < groups.len() ==> (#[trigger] groups[g].1).len() > 0
    &&& forall|g: int, h: int| 0 <= g < h < groups.len() ==> (#[trigger] groups[g].0)@ != (#[trigger] groups[h].0)@
    &&& forall|k: int| 0 <= k < n ==> exists|g: int| 0 <= g < groups.len() && (#[trigger] groups[g].0)@ == (#[trigger] dates[k])@
}

/// The views of date groups.
pub open spec fn position_groups(groups: Seq<(Date, Vec<usize>)>) -> Seq<(Date, Seq<int>)> {
    groups.map_values(|g: (Date, Vec<usize>)| (g.0, g.1@.map_values(|k: usize| k as int)))
}

/// The cached notes grouped by their local date (`local_dates[k]` is the
/// local date of note `k`), as positions into the list of notes.
pub fn group_by_date(local_dates: &Vec<Date>) -> (r: Vec<(Date, Vec<usize>)>)
    ensures
        grouped_by_date(position_groups(r@), local_dates@, local_dates@.len() as int),
{
    let mut r: Vec<(Date, Vec<usize>)> = Vec::new();
    let mut i: usize = 0;
    while i < local_dates.len()
        invariant
            i <= local_dates@.len(),
            grouped_by_date(position_groups(r@), local_dates@, i as int),
        decreases local_dates@.len() - i,
    {
        let d = local_dates[i];
        let ghost before = position_groups(r@);
        let mut g: usize = 0;
        while g < r.len() && !r[g].0.same_day(&d)
            invariant
                g <= r@.len(),
                forall|h: int| 0 <= h < g ==> (#[trigger] r@[h].0)@ != d@,
            decreases r@.len() - g,
        {
            g += 1;
        }
        let ghost old_r = r@;
        if g < r.len() {
            assert(r@[g as int].0@ == d@);
            let (gd, mut members) = r.remove(g);
            let ghost old_members = members@;
            members.push(i);
            r.insert(g, (gd, members));
            proof {
                let now = position_groups(r@);
                assert(r@ =~= old_r.update(g as int, (gd, members)));
                assert(old_r[g as int].0 == gd && old_r[g as int].1@ == old_members);
                assert forall|h: int| 0 <= h < now.len() implies #[trigger] now[h].1 == positions_with(local_dates@, i + 1, now[h].0) by {
                    lemma_positions_step(local_dates@, i as int, now[h].0);
                    if h == g {
                        assert(now[h].0 == before[h].0);
                        assert(now[h].1 =~= before[h].1.push(i as int));
                    } else {
                        assert(now[h] == before[h]);
                        assert(before[g as int].0@ == d@);
                        if h < g {
                            assert(before[h].0@ != before[g as int].0@);
                        } else {
                            assert(before[g as int].0@ != before[h].0@);
                        }
                    }
                }
                assert forall|h1: int, h2: int| 0 <= h1 < h2 < now.len() implies (#[trigger] now[h1].0)@ != (#[trigger] now[h2].0)@ by {
                    assert(now[h1].0 == before[h1].0);
                    assert(now[h2].0 == before[h2].0);
                }
                assert forall|h: int| 0 <= h < now.len() implies (#[trigger] now[h].1).len() > 0 by {
                    if h == g {
                        assert(now[h].1 =~= before[h].1.push(i as int));
                    } else {
                        assert(now[h] == before[h]);
                    }
                }
                assert forall|k: int| 0 <= k < i + 1 implies exists|h: int| 0 <= h < now.len() && (#[trigger] now[h].0)@ == (#[trigger] local_dates@[k])@ by {
                    if k < i {
                        let h = choose|h: int| 0 <= h < before.len() && (#[trigger] before[h].0)@ == local_dates@[k]@;
                        assert(now[h].0 == before[h].0);
                    } else {
                        assert(now[g as int].0 == before[g as int].0);
                    }
                }
            }
        } else {
            let mut members: Vec<usize> = Vec::new();
            members.push(i);
            r.push((d, members));
            proof {
                let now = position_groups(r@);
                assert(now.drop_last() =~= before);
                assert forall|h: int| 0 <= h < now.len() implies #[trigger] now[h].1 == positions_with(local_dates@, i + 1, now[h].0) by {
                    lemma_positions_step(local_dates@, i as int, now[h].0);
                    if h < now.len() - 1 {
                        assert(now[h] == before[h]);
                        assert(before[h].0@ != d@);
                    } else {
                        assert(positions_with(local_dates@, i as int, d) =~= Seq::<int>::empty()) by {
                            let all = Seq::new(i as nat, |k: int| k);
                            let pr = |k: int| local_dates@[k]@ == d@;
                            let ps = all.filter(pr);
                            if ps.len() > 0 {
                                let k = ps[0];
                                all.lemma_filter_pred(pr, 0);
                                assert(ps.contains(k));
                                all.lemma_filter_contains_rev(pr, k);
                                assert(0 <= k < i);
                                let hh = choose|hh: int| 0 <= hh < before.len() && (#[trigger] before[hh].0)@ == local_dates@[k]@;
                                assert(r@[hh].0 == before[hh].0);
                            }
                        }
                        assert(now[h].1 =~= seq![i as int]);
                    }
                }
                assert forall|h1: int, h2: int| 0 <= h1 < h2 < now.len() implies (#[trigger] now[h1].0)@ != (#[trigger] now[h2].0)@ by {
                    assert(now[h1].0 == before[h1].0);
                    if h2 < now.len() - 1 {
                        assert(now[h2].0 == before[h2].0);
                    } else {
                        assert(now[h2].0 == d);
                        assert(r@[h1].0 == before[h1].0);
                    }
                }
                assert forall|h: int| 0 <= h < now.len() implies (#[trigger] now[h].1).len() > 0 by {
                    if h < now.len() - 1 {
                        assert(now[h] == before[h]);
                    } else {
                        assert(now[h].1 =~= seq![i as int]);
                    }
                }
                assert forall|k: int| 0 <= k < i + 1 implies exists|h: int| 0 <= h < now.len() && (#[trigger] now[h].0)@ == (#[trigger] local_dates@[k])@ by {
                    if k < i {
                        let h = choose|h: int| 0 <= h < before.len() && (#[trigger] before[h].0)@ == local_dates@[k]@;
                        assert(now[h].0 == before[h].0);
                    } else {
                        assert(now[now.len() - 1].0 == d);
                    }
                }
            }
        }
        i += 1;
    }
    r
}

/// One note as it goes into the entry of its day: its local time as shown
/// by `time`, a newline, its text.
pub open spec fn note_piece_spec(local_display: Seq<char>, text: Seq<char>) -> Seq<char> {
    local_display + seq!['\n'] + text
}

/// The text the notes of a day add to it: the pieces joined by blank lines.
pub fn merged_notes_text(local_displays: &Vec<String>, notes: &Vec<DiaryCache>) -> (r: String)
    requires
        local_displays@.len() == notes@.len(),
    ensures
        r@ == join_seq(
            Seq::new(notes@.len(), |k: int| note_piece_spec(local_displays@[k]@, notes@[k].diary_text@)),
            "\n\n"@,
        ),
{
    let mut pieces: Vec<String> = Vec::new();
    let mut k: usize = 0;
    while k < notes.len()
        invariant
            k <= notes@.len(),
            local_displays@.len() == notes@.len(),
            pieces@.len() == k,
            forall|j: int| 0 <= j < k ==> #[trigger] pieces@[j]@ == note_piece_spec(local_displays@[j]@, notes@[j].diary_text@),
        decreases notes@.len() - k,
    {
        let mut p = copy_string(&local_displays[k]);
        push_char(&mut p, '\n');
        push_str(&mut p, notes[k].diary_text.as_str());
        assert(p@ =~= note_piece_spec(local_displays@[k as int]@, notes@[k as int].diary_text@));
        pieces.push(p);
        k += 1;
    }
    assert(views(pieces@) =~= Seq::new(notes@.len(), |k: int| note_piece_spec(local_displays@[k]@, notes@[k].diary_text@)));
    join(&pieces, "\n\n")
}

/// What merging the notes of a day does.
#[derive(Debug)]
pub enum MergeAction {
    /// The day file exists: append this text to it.
    AppendToFile(String),
    /// The day has an entry: store it with the notes added.
    UpdateEntry(DiaryEntries),
    /// The day has neither: store a new entry holding the notes.
    InsertEntry(DiaryEntries),
}

/// The merge of the notes text `notes_text` into a day: appended to its file
/// when there is one, else added after a blank line to its entry, else made
/// into a new entry.
pub fn merge_action(file_exists: bool, stored: Option<DiaryEntries>, date: Date, notes_text: &str) -> (r: MergeAction)
    ensures
        file_exists ==> (r matches MergeAction::AppendToFile(t) && t@ == "\n\n"@ + notes_text@ + "\n\n"@),
        !file_exists && stored is Some ==> (r matches MergeAction::UpdateEntry(e) && e.diary_date == stored->0.diary_date
            && e.last_modified == stored->0.last_modified && e.diary_text@ == stored->0.diary_text@ + "\n\n"@ + notes_text@),
        !file_exists && stored is None ==> (r matches MergeAction::InsertEntry(e) && e.diary_date == date && e.diary_text@ == notes_text@),
{
    if file_exists {
        let mut t = to_owned_string("\n\n");
        push_str(&mut t, notes_text);
        push_str(&mut t, "\n\n");
        MergeAction::AppendToFile(t)
    } else {
        match stored {
            Some(e) => {
                let mut t = copy_string(&e.diary_text);
                push_str(&mut t, "\n\n");
                push_str(&mut t, notes_text);
                MergeAction::UpdateEntry(DiaryEntries { diary_date: e.diary_date, diary_text: t, last_modified: e.last_modified })
            },
            None => MergeAction::InsertEntry(DiaryEntries::new(date, notes_text)),
        }
    }
}

/// A note as plain values: its instant and its text.
pub open spec fn note_view(c: DiaryCache) -> (DateTimeWrapper, Seq<char>) {
    (c.diary_datetime, c.diary_text@)
}

/// The notes fetched from the remote host that the local cache lacks (no
/// cached note has the same instant), in order.
pub fn new_remote_notes(remote: &Vec<DiaryCache>, cached: &Vec<DateTimeWrapper>) -> (r: Vec<DiaryCache>)
    ensures
        r@.map_values(|c: DiaryCache| note_view(c)) == remote@.filter(
            |c: DiaryCache| !cached@.contains(c.diary_datetime),
        ).map_values(|c: DiaryCache| note_view(c)),
{
    let ghost pred = |c: DiaryCache| !cached@.contains(c.diary_datetime);
    let mut r: Vec<DiaryCache> = Vec::new();
    let mut i: usize = 0;
    assert(remote@.take(0) =~= Seq::<DiaryCache>::empty());
    while i < remote.len()
        invariant
            i <= remote@.len(),
            pred == (|c: DiaryCache| !cached@.contains(c.diary_datetime)),
            r@.map_values(|c: DiaryCache| note_view(c)) == remote@.take(i as int).filter(pred).map_values(
                |c: DiaryCache| note_view(c),
            ),
        decreases remote@.len() - i,
    {
        proof {
            reveal_with_fuel(Seq::<_>::filter, 1);
            assert(remote@.take(i + 1).drop_last() =~= remote@.take(i as int));
        }
        let t = remote[i].diary_datetime;
        let mut found = false;
        let mut j: usize = 0;
        while j < cached.len()
            invariant
                j <= cached@.len(),
                found <==> exists|m: int| 0 <= m < j && cached@[m] == t,
            decreases cached@.len() - j,
        {
            if cached[j].unix_timestamp_nanos() == t.unix_timestamp_nanos() {
                proof {
                    DateTimeWrapper::lemma_view_injective(cached@[j as int], t);
                }
                found = true;
            }
            j += 1;
        }
        let ghost prev = r@;
        if !found {
            r.push(remote[i].duplicate());
            proof {
                assert(r@.map_values(|c: DiaryCache| note_view(c)) =~= prev.map_values(|c: DiaryCache| note_view(c)).push(
                    note_view(remote@[i as int]),
                ));
                assert(remote@.take(i + 1).filter(pred).map_values(|c: DiaryCache| note_view(c)) =~= remote@.take(
                    i as int,
                ).filter(pred).map_values(|c: DiaryCache| note_view(c)).push(note_view(remote@[i as int])));
            }
        } else {
            proof {
                let m = choose|m: int| 0 <= m < cached@.len() && cached@[m] == t;
                assert(cached@.contains(t));
            }
        }
        i += 1;
    }
    assert(remote@.take(remote@.len() as int) =~= remote@);
    r
}

} // verus!
