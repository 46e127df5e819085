//! Decisions of the diary's top level: the page of days a listing shows,
//! the report of a full synchronisation, and the checks of the backup
//! directory against the stored entries.
use vstd::prelude::*;

use crate::date::{date_display, date_key, diary_file_format, parse_date, Date};
use crate::models::{date_line, instant_line, instant_line_spec, DiaryCache, DiaryEntries};
use crate::s3_sync::file_name_date;
use crate::sorting::{key_order, sort_by_key};
use crate::text::{push_decimal, push_str, nat_decimal, to_owned_string, views};

verus! {

// ---------------------------------------------------------------------------
// Listing the days
// ---------------------------------------------------------------------------

/// The page of the days, already sorted newest first: from position `start`
/// on (ignored when it lies past the end), at most `limit` of them.
pub open spec fn page_spec(sorted: Seq<Date>, start: Option<usize>, limit: Option<usize>) -> Seq<Date> {
    let from: Seq<Date> = match start {
        Some(s) => if s <= sorted.len() {
            sorted.skip(s as int)
        } else {
            sorted
        },
        None => sorted,
    };
    match limit {
        Some(l) => if l < from.len() {
            from.take(l as int)
        } else {
            from
        },
        None => from,
    }
}

/// The days of the diary as a listing shows them: newest first, from
/// position `start` on (when it is not past the end), at most `limit`.
pub fn get_list_of_dates(dates: &Vec<Date>, start: Option<usize>, limit: Option<usize>) -> (r: Vec<Date>)
    ensures
        r@ == page_spec(dates@.sort_by(key_order::<Date>(true)), start, limit),
{
    let sorted = sort_by_key(dates, true);
    let from: usize = match start {
        Some(s) => if s <= sorted.len() {
            s
        } else {
            0
        },
        None => 0,
    };
    let available: usize = sorted.len() - from;
    let count: usize = match limit {
        Some(l) => if l < available {
            l
        } else {
            available
        },
        None => available,
    };
    let end: usize = from + count;
    let mut r: Vec<Date> = Vec::new();
    let mut i: usize = 0;
    while i < count
        invariant
            i <= count,
            end == from + count,
            end <= sorted@.len(),
            r@ == sorted@.subrange(from as int, from + i),
        decreases count - i,
    {
        let k: usize = from + i;
        r.push(sorted[k]);
        i += 1;
    }
    proof {
        let s = sorted@;
        let f: Seq<Date> = match start {
            Some(st) => if st <= s.len() {
                s.skip(st as int)
            } else {
                s
            },
            None => s,
        };
        assert(f =~= s.subrange(from as int, s.len() as int));
        assert(page_spec(s, start, limit) =~= s.subrange(from as int, from + count));
    }
    r
}

// ---------------------------------------------------------------------------
// The report of a full synchronisation
// ---------------------------------------------------------------------------

/// `{prefix}{date}` for each entry, in order.
pub open spec fn date_lines_spec(prefix: Seq<char>, entries: Seq<DiaryEntries>) -> Seq<Seq<char>> {
    entries.map_values(|e: DiaryEntries| prefix + date_display(e.diary_date@))
}

/// `{prefix}{instant}` for each cached note, in order.
pub open spec fn instant_lines_spec(prefix: Seq<char>, notes: Seq<DiaryCache>) -> Seq<Seq<char>> {
    notes.map_values(|c: DiaryCache| instant_line_spec(prefix, c.diary_datetime@))
}

/// Appends `{prefix}{date}` for each entry.
fn push_date_lines(out: &mut Vec<String>, prefix: &str, entries: &Vec<DiaryEntries>)
    ensures
        views(final(out)@) == views(old(out)@) + date_lines_spec(prefix@, entries@),
{
    let ghost start = views(out@);
    let mut i: usize = 0;
    while i < entries.len()
        invariant
            i <= entries@.len(),
            views(out@) == start + date_lines_spec(prefix@, entries@.take(i as int)),
        decreases entries@.len() - i,
    {
        let ghost before = out@;
        let line = date_line(prefix, &entries[i].diary_date);
        let ghost l = line@;
        out.push(line);
        proof {
            assert(views(out@) =~= views(before).push(l));
            assert(entries@.take(i + 1) =~= entries@.take(i as int).push(entries@[i as int]));
            assert(date_lines_spec(prefix@, entries@.take(i + 1)) =~= date_lines_spec(prefix@, entries@.take(i as int)).push(l));
            assert(views(out@) =~= start + date_lines_spec(prefix@, entries@.take(i + 1)));
        }
        i += 1;
    }
    assert(entries@.take(entries@.len() as int) =~= entries@);
}

/// Appends `{prefix}{instant}` for each cached note.
fn push_instant_lines(out: &mut Vec<String>, prefix: &str, notes: &Vec<DiaryCache>)
    ensures
        views(final(out)@) == views(old(out)@) + instant_lines_spec(prefix@, notes@),
{
    let ghost start = views(out@);
    let mut i: usize = 0;
    while i < notes.len()
        invariant
            i <= notes@.len(),
            views(out@) == start + instant_lines_spec(prefix@, notes@.take(i as int)),
        decreases notes@.len() - i,
    {
        let ghost before = out@;
        let line = instant_line(prefix, &notes[i].diary_datetime);
        let ghost l = line@;
        out.push(line);
        proof {
            assert(views(out@) =~= views(before).push(l));
            assert(notes@.take(i + 1) =~= notes@.take(i as int).push(notes@[i as int]));
            assert(instant_lines_spec(prefix@, notes@.take(i + 1)) =~= instant_lines_spec(prefix@, notes@.take(i as int)).push(l));
            assert(views(out@) =~= start + instant_lines_spec(prefix@, notes@.take(i + 1)));
        }
        i += 1;
    }
    assert(notes@.take(notes@.len() as int) =~= notes@);
}

/// The report of a full synchronisation, in the order its steps run.
pub open spec fn sync_report_spec(
    ssh_notes: Seq<DiaryCache>,
    merged: Seq<DiaryEntries>,
    local_imports: Seq<DiaryEntries>,
    s3_imports: Seq<DiaryEntries>,
    local_cleanups: Seq<DiaryEntries>,
    year_exports: Seq<Seq<char>>,
    s3_exports: Seq<DiaryEntries>,
) -> Seq<Seq<char>> {
    instant_lines_spec("ssh cache "@, ssh_notes)
        + date_lines_spec("update "@, merged)
        + date_lines_spec("local import "@, local_imports)
        + date_lines_spec("s3 import "@, s3_imports)
        + date_lines_spec("local cleanup "@, local_cleanups)
        + year_exports
        + date_lines_spec("s3 export "@, s3_exports)
}

/// The lines a full synchronisation reports: the notes fetched over SSH, the
/// entries the cache was merged into, the local and S3 imports, the local
/// clean-up, the yearly export lines and the S3 exports.
pub fn sync_report(
    ssh_notes: &Vec<DiaryCache>,
    merged: &Vec<DiaryEntries>,
    local_imports: &Vec<DiaryEntries>,
    s3_imports: &Vec<DiaryEntries>,
    local_cleanups: &Vec<DiaryEntries>,
    year_exports: &Vec<String>,
    s3_exports: &Vec<DiaryEntries>,
) -> (r: Vec<String>)
    ensures
        views(r@) == sync_report_spec(
            ssh_notes@,
            merged@,
            local_imports@,
            s3_imports@,
            local_cleanups@,
            views(year_exports@),
            s3_exports@,
        ),
{
    let mut out: Vec<String> = Vec::new();
    proof {
        reveal_strlit("ssh cache ");
        reveal_strlit("update ");
        reveal_strlit("local import ");
        reveal_strlit("s3 import ");
        reveal_strlit("local cleanup ");
        reveal_strlit("s3 export ");
        assert(views(out@) =~= Seq::<Seq<char>>::empty());
    }
    push_instant_lines(&mut out, "ssh cache ", ssh_notes);
    push_date_lines(&mut out, "update ", merged);
    push_date_lines(&mut out, "local import ", local_imports);
    push_date_lines(&mut out, "s3 import ", s3_imports);
    push_date_lines(&mut out, "local cleanup ", local_cleanups);
    let ghost before_years = views(out@);
    let mut i: usize = 0;
    while i < year_exports.len()
        invariant
            i <= year_exports@.len(),
            views(out@) == before_years + views(year_exports@).take(i as int),
        decreases year_exports@.len() - i,
    {
        let ghost before = out@;
        let line = crate::text::copy_string(&year_exports[i]);
        out.push(line);
        proof {
            assert(views(out@) =~= views(before).push(year_exports@[i as int]@));
            assert(views(year_exports@).take(i + 1) =~= views(year_exports@).take(i as int).push(year_exports@[i as int]@));
            assert(views(out@) =~= before_years + views(year_exports@).take(i + 1));
        }
        i += 1;
    }
    assert(views(year_exports@).take(year_exports@.len() as int) =~= views(year_exports@));
    push_date_lines(&mut out, "s3 export ", s3_exports);
    out
}

// ---------------------------------------------------------------------------
// The backup directory
// ---------------------------------------------------------------------------

/// The files of the backup directory named like `2011-05-23.txt`, each with
/// its date and length, in the order they were listed.
pub open spec fn backup_lengths_spec(files: Seq<(String, usize)>) -> Seq<((int, int, int), usize)>
    decreases files.len(),
{
    if files.len() == 0 {
        Seq::empty()
    } else {
        let rest = backup_lengths_spec(files.drop_last());
        match file_name_date(files.last().0@) {
            Some(d) => rest.push((d, files.last().1)),
            None => rest,
        }
    }
}

/// The views of dated lengths.
pub open spec fn dated_views(v: Seq<(Date, usize)>) -> Seq<((int, int, int), usize)> {
    v.map_values(|p: (Date, usize)| (p.0@, p.1))
}

/// The length listed last for the date `d` among dated lengths, if any.
pub open spec fn last_len(s: Seq<((int, int, int), usize)>, d: (int, int, int)) -> Option<usize>
    decreases s.len(),
{
    if s.len() == 0 {
        None
    } else if s.last().0 == d {
        Some(s.last().1)
    } else {
        last_len(s.drop_last(), d)
    }
}

/// Whether `r` holds each date of the dated lengths `f` once, with the
/// length listed last for it (as collecting them into a map by date keeps).
pub open spec fn one_length_per_date(r: Seq<((int, int, int), usize)>, f: Seq<((int, int, int), usize)>) -> bool {
    &&& forall|k1: int, k2: int| 0 <= k1 < k2 < r.len() ==> (#[trigger] r[k1]).0 != (#[trigger] r[k2]).0
    &&& forall|k: int| 0 <= k < r.len() ==> last_len(f, (#[trigger] r[k]).0) == Some(r[k].1)
    &&& forall|d: (int, int, int)| (#[trigger] last_len(f, d)) is Some ==> exists|k: int| 0 <= k < r.len() && r[k].0 == d
}

/// The dated files among the listing of the backup directory (file name and
/// length): each date whose day file name occurs, once, with the length of
/// the file listed last for it.
pub fn backup_lengths(files: &Vec<(String, usize)>) -> (r: Vec<(Date, usize)>)
    ensures
        one_length_per_date(dated_views(r@), backup_lengths_spec(files@)),
{
    let mut r: Vec<(Date, usize)> = Vec::new();
    let mut i: usize = 0;
    while i < files.len()
        invariant
            i <= files@.len(),
            one_length_per_date(dated_views(r@), backup_lengths_spec(files@.take(i as int))),
        decreases files@.len() - i,
    {
        let ghost before = dated_views(r@);
        let ghost f = backup_lengths_spec(files@.take(i as int));
        let (name, len) = (&files[i].0, files[i].1);
        let parsed = parse_date(name.as_str(), diary_file_format());
        proof {
            let t = files@.take(i + 1);
            assert(t.drop_last() =~= files@.take(i as int));
            assert(t.last() == files@[i as int]);
        }
        match parsed {
            Some(d) => {
                let ghost nf = f.push((d@, len));
                assert(backup_lengths_spec(files@.take(i + 1)) == nf);
                assert(nf.drop_last() =~= f);
                let mut g: usize = 0;
                while g < r.len() && !r[g].0.same_day(&d)
                    invariant
                        g <= r@.len(),
                        forall|h: int| 0 <= h < g ==> (#[trigger] r@[h]).0@ != d@,
                    decreases r@.len() - g,
                {
                    g += 1;
                }
                if g < r.len() {
                    let day = r[g].0;
                    r.set(g, (day, len));
                    proof {
                        let now = dated_views(r@);
                        assert(now =~= before.update(g as int, (d@, len)));
                        assert forall|k1: int, k2: int| 0 <= k1 < k2 < now.len() implies (#[trigger] now[k1]).0 != (#[trigger] now[k2]).0 by {
                            assert(before[k1].0 != before[k2].0);
                        }
                        assert forall|k: int| 0 <= k < now.len() implies last_len(nf, (#[trigger] now[k]).0) == Some(now[k].1) by {
                            if k != g {
                                assert(before[k].0 != before[g as int].0);
                                assert(last_len(f, before[k].0) == Some(before[k].1));
                            }
                        }
                        assert forall|x: (int, int, int)| (#[trigger] last_len(nf, x)) is Some implies exists|k: int| 0 <= k < now.len() && now[k].0 == x by {
                            if x == d@ {
                                assert(now[g as int].0 == x);
                            } else {
                                assert(last_len(nf, x) == last_len(f, x));
                                assert(last_len(f, x) is Some);
                                let k = choose|k: int| 0 <= k < before.len() && before[k].0 == x;
                                assert(now[k].0 == x);
                            }
                        }
                    }
                } else {
                    r.push((d, len));
                    proof {
                        let now = dated_views(r@);
                        assert(now =~= before.push((d@, len)));
                        assert forall|k: int| 0 <= k < before.len() implies before[k].0 != d@ by {
                            assert(before[k].0 == r@[k].0@);
                        }
                        assert forall|k1: int, k2: int| 0 <= k1 < k2 < now.len() implies (#[trigger] now[k1]).0 != (#[trigger] now[k2]).0 by {
                            if k2 < before.len() {
                                assert(before[k1].0 != before[k2].0);
                            }
                        }
                        assert forall|k: int| 0 <= k < now.len() implies last_len(nf, (#[trigger] now[k]).0) == Some(now[k].1) by {
                            if k < before.len() {
                                assert(last_len(f, before[k].0) == Some(before[k].1));
                            }
                        }
                        assert forall|x: (int, int, int)| (#[trigger] last_len(nf, x)) is Some implies exists|k: int| 0 <= k < now.len() && now[k].0 == x by {
                            if x == d@ {
                                assert(now[now.len() - 1].0 == x);
                            } else {
                                assert(last_len(nf, x) == last_len(f, x));
                                assert(last_len(f, x) is Some);
                                let k = choose|k: int| 0 <= k < before.len() && before[k].0 == x;
                                assert(now[k].0 == x);
                            }
                        }
                    }
                }
            },
            None => {
                assert(backup_lengths_spec(files@.take(i + 1)) == f);
            },
        }
        i += 1;
    }
    assert(files@.take(files@.len() as int) =~= files@);
    r
}

/// The report on a backed-up day: `None` when the backup and the stored
/// entry differ in length by at most one byte, else the date and both
/// lengths.
pub open spec fn backup_mismatch_spec(date: Date, backup_len: usize, diary_len: usize) -> Option<(Date, usize, usize)> {
    if diary_len <= backup_len + 1 && backup_len <= diary_len + 1 {
        None
    } else {
        Some((date, backup_len, diary_len))
    }
}

/// Compares the length of a backed-up day with that of its stored entry.
pub fn backup_mismatch(date: Date, backup_len: usize, diary_len: usize) -> (r: Option<(Date, usize, usize)>)
    ensures
        r == backup_mismatch_spec(date, backup_len, diary_len),
{
    let diff = if diary_len >= backup_len {
        diary_len - backup_len
    } else {
        backup_len - diary_len
    };
    if diff <= 1 {
        None
    } else {
        Some((date, backup_len, diary_len))
    }
}

/// Whether the backup clean-up refreshes a mismatched day: only when the
/// stored entry is the longer one and the backup file is there to remove.
pub fn backup_needs_refresh(backup_len: usize, diary_len: usize, file_exists: bool) -> (r: bool)
    ensures
        r == (diary_len > backup_len && file_exists),
{
    diary_len > backup_len && file_exists
}

/// Whether the day is uploaded again after its backup file went: unless the
/// bucket already holds a copy of the stored length.
pub fn backup_needs_upload(downloaded_len: Option<usize>, diary_len: usize) -> (r: bool)
    ensures
        r == (downloaded_len != Some(diary_len)),
{
    match downloaded_len {
        Some(l) => l != diary_len,
        None => true,
    }
}

/// `date {date} backup_len {backup_len} diary_len {diary_len}`.
pub open spec fn backup_report_spec(date: Date, backup_len: usize, diary_len: usize) -> Seq<char> {
    "date "@ + date_display(date@) + " backup_len "@ + nat_decimal(backup_len as nat) + " diary_len "@
        + nat_decimal(diary_len as nat)
}

/// The line the backup clean-up reports for a day it uploaded again, none when
/// the upload did not happen.
pub fn backup_report(date: &Date, backup_len: usize, diary_len: usize, uploaded: bool) -> (r: Option<String>)
    ensures
        uploaded ==> (r matches Some(s) && s@ == backup_report_spec(*date, backup_len, diary_len)),
        !uploaded ==> r is None,
{
    if !uploaded {
        return None;
    }
    let mut s = date_line("date ", date);
    push_str(&mut s, " backup_len ");
    push_decimal(&mut s, backup_len as u64);
    push_str(&mut s, " diary_len ");
    push_decimal(&mut s, diary_len as u64);
    proof {
        reveal_strlit("date ");
        reveal_strlit(" backup_len ");
        reveal_strlit(" diary_len ");
    }
    assert(s@ =~= backup_report_spec(*date, backup_len, diary_len));
    Some(s)
}


// ---------------------------------------------------------------------------
// Laws
// ---------------------------------------------------------------------------

/// A limit only cuts the listing short: the page with a limit is the start
/// of the page without one, and holds at most `limit` days.
pub proof fn law_limit_takes_prefix(sorted: Seq<Date>, start: Option<usize>, limit: usize)
    ensures
        page_spec(sorted, start, Some(limit)).len() <= limit,
        page_spec(sorted, start, Some(limit)) == page_spec(sorted, start, None).take(
            page_spec(sorted, start, Some(limit)).len() as int,
        ),
{
    let full = page_spec(sorted, start, None);
    if limit < full.len() {
        assert(page_spec(sorted, start, Some(limit)) =~= full.take(limit as int));
    } else {
        assert(full.take(full.len() as int) =~= full);
    }
}

/// A listing shows days of the diary, newest first, each at most once when
/// the diary's days are distinct.
pub proof fn law_listing_newest_first(dates: Seq<Date>, start: Option<usize>, limit: Option<usize>)
    ensures
        ({
            let page = page_spec(dates.sort_by(key_order::<Date>(true)), start, limit);
            &&& forall|i: int, j: int| 0 <= i < j < page.len() ==> date_key(#[trigger] page[i]@) >= date_key(#[trigger] page[j]@)
            &&& forall|i: int| 0 <= i < page.len() ==> dates.contains(#[trigger] page[i])
            &&& dates.no_duplicates() ==> page.no_duplicates()
        }),
{
    let leq = key_order::<Date>(true);
    crate::sorting::lemma_key_orders_total::<Date>();
    dates.lemma_sort_by_ensures(leq);
    let s = dates.sort_by(leq);
    let page = page_spec(s, start, limit);
    let from: int = match start {
        Some(st) => if st <= s.len() {
            st as int
        } else {
            0
        },
        None => 0,
    };
    let rest = s.len() - from;
    let count: int = match limit {
        Some(l) => if l < rest {
            l as int
        } else {
            rest
        },
        None => rest,
    };
    assert(page =~= s.subrange(from, from + count));
    assert forall|i: int, j: int| 0 <= i < j < page.len() implies date_key(#[trigger] page[i]@) >= date_key(#[trigger] page[j]@) by {
        assert(page[i] == s[from + i] && page[j] == s[from + j]);
        assert(leq(s[from + i], s[from + j]));
    }
    assert forall|i: int| 0 <= i < page.len() implies dates.contains(#[trigger] page[i]) by {
        assert(page[i] == s[from + i]);
        assert(s.contains(s[from + i]));
    }
    if dates.no_duplicates() {
        dates.lemma_multiset_has_no_duplicates();
        assert(s.to_multiset() =~= dates.to_multiset());
        s.lemma_multiset_has_no_duplicates_conv();
        assert forall|i: int, j: int| 0 <= i < j < page.len() implies page[i] != page[j] by {
            assert(page[i] == s[from + i] && page[j] == s[from + j]);
        }
    }
}

} // verus!
