//! Conflicts: when a day's text is replaced, the lines of the difference
//! between the old and the new text are kept for review; a reviewed
//! conflict is committed back as the day's text.
use vstd::prelude::*;

use crate::commands::chars_equal;
use crate::date::{Date, DateTimeWrapper, MAX_UNIX_NANOS, MIN_UNIX_NANOS};
use crate::models::DiaryConflict;
use crate::text::{copy_string, join, join_seq, push_char, push_str, str_chars, to_owned_string, views};

verus! {

/// The kind of a line of a difference.
#[derive(Clone, Copy, PartialEq, Eq, Structural, Debug)]
pub enum DiffKind {
    /// In both texts.
    Same,
    /// Only in the new text.
    Add,
    /// Only in the old text.
    Rem,
}

/// What `difference::Changeset::new(orig, edit, split)` computes: its
/// `diffs` (kind and text of each run) and its `distance`.
pub uninterp spec fn spec_changeset(orig: Seq<char>, edit: Seq<char>, split: Seq<char>) -> (Seq<(DiffKind, Seq<char>)>, int);

/// The texts of the runs of a difference that stand in the old text: the
/// common and the removed runs, in order.
pub open spec fn old_side_texts(diffs: Seq<(DiffKind, Seq<char>)>) -> Seq<Seq<char>> {
    diffs.filter(|d: (DiffKind, Seq<char>)| d.0 != DiffKind::Add).map_values(|d: (DiffKind, Seq<char>)| d.1)
}

/// The texts of the runs of a difference that stand in the new text: the
/// common and the added runs, in order.
pub open spec fn new_side_texts(diffs: Seq<(DiffKind, Seq<char>)>) -> Seq<Seq<char>> {
    diffs.filter(|d: (DiffKind, Seq<char>)| d.0 != DiffKind::Rem).map_values(|d: (DiffKind, Seq<char>)| d.1)
}

/// `difference::Changeset::new(orig, edit, split)`, its differences given
/// as kind and text. The contract names the result and, for the line split
/// `"\n"`, states what the crate's merge of the two texts along their common
/// lines gives: every line of `orig` lands, in order, in a common or a
/// removed run and every line of `edit` in a common or an added run, each
/// run holding its lines joined by newlines, so the common and removed runs
/// joined by newlines give back `orig` and the common and added runs give
/// back `edit`. The choice of common lines itself is not restated.
#[verifier::external_body]
fn changeset(orig: &str, edit: &str, split: &str) -> (r: (Vec<(DiffKind, String)>, i32))
    ensures
        spec_changeset(orig@, edit@, split@) == (
            r.0@.map_values(|d: (DiffKind, String)| (d.0, d.1@)),
            r.1 as int,
        ),
        split@ == "\n"@ ==> join_seq(old_side_texts(r.0@.map_values(|d: (DiffKind, String)| (d.0, d.1@))), "\n"@) == orig@,
        split@ == "\n"@ ==> join_seq(new_side_texts(r.0@.map_values(|d: (DiffKind, String)| (d.0, d.1@))), "\n"@) == edit@,
{
    let c = difference::Changeset::new(orig, edit, split);
    let diffs = c.diffs.into_iter().map(|d| match d {
        difference::Difference::Same(s) => (DiffKind::Same, s),
        difference::Difference::Add(s) => (DiffKind::Add, s),
        difference::Difference::Rem(s) => (DiffKind::Rem, s),
    }).collect();
    (diffs, c.distance)
}

/// The name a kind of difference is stored under.
pub open spec fn diff_type_name(k: DiffKind) -> Seq<char> {
    match k {
        DiffKind::Same => "same"@,
        DiffKind::Add => "add"@,
        DiffKind::Rem => "rem"@,
    }
}

/// The stored name of a kind of difference: `same`, `add` or `rem`.
#[verifier::allow_in_spec]
pub fn diff_type_str(k: DiffKind) -> &'static str
    returns
        match k {
            DiffKind::Same => "same",
            DiffKind::Add => "add",
            DiffKind::Rem => "rem",
        },
{
    match k {
        DiffKind::Same => "same",
        DiffKind::Add => "add",
        DiffKind::Rem => "rem",
    }
}

/// Number of removed runs in a difference.
pub open spec fn removed_count(diffs: Seq<(DiffKind, Seq<char>)>) -> nat
    decreases diffs.len(),
{
    if diffs.len() == 0 {
        0
    } else {
        removed_count(diffs.drop_last()) + if diffs.last().0 == DiffKind::Rem {
            1nat
        } else {
            0nat
        }
    }
}

proof fn lemma_removed_nonempty(diffs: Seq<(DiffKind, Seq<char>)>)
    ensures
        removed_count(diffs) > 0 ==> diffs.len() > 0,
{
}

/// Whether `c` is conflict line `k` of a difference recorded at `t` for the
/// day `date`.
pub open spec fn conflict_line(c: DiaryConflict, t: DateTimeWrapper, date: Date, d: (DiffKind, Seq<char>), k: int) -> bool {
    &&& c.sync_datetime == t
    &&& c.diary_date == date
    &&& c.diff_type@ == diff_type_str(d.0)@
    &&& c.diff_text@ == d.1
    &&& c.sequence == k as i32
}

/// The conflict lines of a difference, numbered in order, and the number of
/// removed runs among them.
pub fn changeset_conflicts(sync_datetime: DateTimeWrapper, date: Date, diffs: &Vec<(DiffKind, String)>) -> (r: (Vec<DiaryConflict>, usize))
    ensures
        r.0@.len() == diffs@.len(),
        forall|k: int| 0 <= k < diffs@.len() ==> conflict_line(#[trigger] r.0@[k], sync_datetime, date, (diffs@[k].0, diffs@[k].1@), k),
        r.1 == removed_count(diffs@.map_values(|d: (DiffKind, String)| (d.0, d.1@))),
{
    let ghost dv = diffs@.map_values(|d: (DiffKind, String)| (d.0, d.1@));
    let mut out: Vec<DiaryConflict> = Vec::new();
    let mut removed: usize = 0;
    let mut k: usize = 0;
    assert(dv.take(0) =~= Seq::<(DiffKind, Seq<char>)>::empty());
    while k < diffs.len()
        invariant
            k <= diffs@.len(),
            dv == diffs@.map_values(|d: (DiffKind, String)| (d.0, d.1@)),
            out@.len() == k,
            removed <= k,
            forall|j: int| 0 <= j < k ==> conflict_line(#[trigger] out@[j], sync_datetime, date, (diffs@[j].0, diffs@[j].1@), j),
            removed == removed_count(dv.take(k as int)),
        decreases diffs@.len() - k,
    {
        let (kind, text) = (diffs[k].0, &diffs[k].1);
        let c = DiaryConflict::new(sync_datetime, date, diff_type_str(kind), text.as_str(), k as i32);
        out.push(c);
        assert(dv.take(k + 1).drop_last() =~= dv.take(k as int));
        if kind == DiffKind::Rem {
            removed += 1;
        }
        k += 1;
    }
    assert(dv.take(diffs@.len() as int) =~= dv);
    (out, removed)
}

/// What storing a new text for a day that already has one involves.
pub struct UpdatePlan {
    /// Conflict lines to store.
    pub conflicts: Vec<DiaryConflict>,
    /// Whether the new text is written.
    pub write_text: bool,
    /// What the update reports: the time of the stored conflict, if any.
    pub result: Option<DateTimeWrapper>,
}

/// The texts compared when a day's text is updated: stored against new when
/// the new text is written, new against stored otherwise.
pub open spec fn compared_texts(stored: Seq<char>, new_text: Seq<char>, insert_new: bool) -> (Seq<char>, Seq<char>) {
    if insert_new {
        (stored, new_text)
    } else {
        (new_text, stored)
    }
}

/// What an update does with the difference `diffs` (of edit distance
/// `distance`) of the compared texts, found at `now`.
pub open spec fn plan_spec(
    r: UpdatePlan,
    diffs: Seq<(DiffKind, Seq<char>)>,
    distance: int,
    insert_new: bool,
    date: Date,
    now: DateTimeWrapper,
) -> bool {
    let keep = distance > 0 && removed_count(diffs) > 0;
    &&& r.write_text == insert_new
    &&& keep ==> r.conflicts@.len() == diffs.len() && (forall|k: int|
        0 <= k < diffs.len() ==> conflict_line(#[trigger] r.conflicts@[k], now, date, diffs[k], k))
        && r.result == if insert_new {
        Some(now)
    } else {
        None::<DateTimeWrapper>
    }
    &&& !keep ==> r.conflicts@.len() == 0 && r.result is None
}

/// The plan of an update once the difference is known: its lines are kept as
/// conflict lines stamped `now` when it has an edit distance and removes
/// something; the new text is written when `insert_new`; the update reports
/// the conflict's time only when it writes.
pub fn plan_from_changeset(
    diffs: &Vec<(DiffKind, String)>,
    distance: i32,
    insert_new: bool,
    date: Date,
    now: DateTimeWrapper,
) -> (r: UpdatePlan)
    ensures
        plan_spec(r, diffs@.map_values(|d: (DiffKind, String)| (d.0, d.1@)), distance as int, insert_new, date, now),
{
    let ghost dv = diffs@.map_values(|d: (DiffKind, String)| (d.0, d.1@));
    if distance > 0 {
        let (conflicts, removed) = changeset_conflicts(now, date, diffs);
        if removed > 0 {
            proof {
                assert forall|k: int| 0 <= k < dv.len() implies conflict_line(#[trigger] conflicts@[k], now, date, dv[k], k) by {
                    assert(dv[k] == (diffs@[k].0, diffs@[k].1@));
                }
            }
            let result = if insert_new {
                Some(now)
            } else {
                None
            };
            return UpdatePlan { conflicts, write_text: insert_new, result };
        }
    }
    UpdatePlan { conflicts: Vec::new(), write_text: insert_new, result: None }
}

/// The plan of an update of a day's text: the difference
/// of the compared texts, line by line, as `difference` computes it, planned
/// at the current time.
pub fn update_plan(stored_text: &str, new_text: &str, insert_new: bool, date: Date) -> (r: UpdatePlan)
    ensures
        ({
            let (orig, edit) = compared_texts(stored_text@, new_text@, insert_new);
            let (diffs, distance) = spec_changeset(orig, edit, "\n"@);
            let keep = distance > 0 && removed_count(diffs) > 0;
            &&& keep ==> r.conflicts@.len() > 0
            &&& keep ==> plan_spec(r, diffs, distance, insert_new, date, r.conflicts@[0].sync_datetime)
            &&& keep ==> commit_text_spec(r.conflicts@) == edit
            &&& !keep ==> r.write_text == insert_new && r.conflicts@.len() == 0 && r.result is None
        }),
{
    let (orig, edit) = if insert_new {
        (stored_text, new_text)
    } else {
        (new_text, stored_text)
    };
    let (diffs, distance) = changeset(orig, edit, "\n");
    let now = DateTimeWrapper::now();
    let plan = plan_from_changeset(&diffs, distance, insert_new, date, now);
    proof {
        let dv = diffs@.map_values(|d: (DiffKind, String)| (d.0, d.1@));
        let (o, e) = compared_texts(stored_text@, new_text@, insert_new);
        assert(o == orig@ && e == edit@);
        lemma_removed_nonempty(dv);
        if distance > 0 && removed_count(dv) > 0 {
            assert(plan.conflicts@.len() > 0);
            assert(conflict_line(plan.conflicts@[0], now, date, dv[0], 0));
            assert(plan.conflicts@[0].sync_datetime == now);
            law_commit_of_planned_conflict(plan, dv, distance as int, insert_new, date, now);
        }
    }
    plan
}

/// Why a conflict cannot be committed.
#[derive(Clone, Copy, PartialEq, Eq, Structural, Debug)]
pub enum CommitError {
    /// The conflict lines belong to more than one day.
    SeveralDates,
    /// There are no conflict lines.
    NoConflicts,
}

/// Whether a stored conflict line is kept when committing: added and common
/// lines are, removed ones are not.
pub open spec fn kept_on_commit(c: DiaryConflict) -> bool {
    c.diff_type@ == "add"@ || c.diff_type@ == "same"@
}

/// The text a commit writes: the kept lines joined by newlines.
pub open spec fn commit_text_spec(conflicts: Seq<DiaryConflict>) -> Seq<char> {
    join_seq(conflicts.filter(|c: DiaryConflict| kept_on_commit(c)).map_values(|c: DiaryConflict| c.diff_text@), "\n"@)
}

proof fn lemma_kept_lines(cs: Seq<DiaryConflict>, ds: Seq<(DiffKind, Seq<char>)>, t: DateTimeWrapper, date: Date)
    requires
        cs.len() == ds.len(),
        forall|k: int| 0 <= k < ds.len() ==> conflict_line(#[trigger] cs[k], t, date, ds[k], k),
    ensures
        cs.filter(|c: DiaryConflict| kept_on_commit(c)).map_values(|c: DiaryConflict| c.diff_text@) == new_side_texts(ds),
    decreases ds.len(),
{
    reveal_with_fuel(Seq::<_>::filter, 1);
    if ds.len() == 0 {
        assert(cs.filter(|c: DiaryConflict| kept_on_commit(c)).map_values(|c: DiaryConflict| c.diff_text@) =~= new_side_texts(ds));
    } else {
        let n = ds.len() - 1;
        let cp = cs.drop_last();
        let dp = ds.drop_last();
        assert forall|k: int| 0 <= k < dp.len() implies conflict_line(#[trigger] cp[k], t, date, dp[k], k) by {
            assert(cp[k] == cs[k] && dp[k] == ds[k]);
            assert(conflict_line(cs[k], t, date, ds[k], k));
        }
        lemma_kept_lines(cp, dp, t, date);
        assert(conflict_line(cs[n], t, date, ds[n], n));
        reveal_strlit("add");
        reveal_strlit("same");
        reveal_strlit("rem");
        let kc = cs.filter(|c: DiaryConflict| kept_on_commit(c));
        let kd = ds.filter(|d: (DiffKind, Seq<char>)| d.0 != DiffKind::Rem);
        let kcp = cp.filter(|c: DiaryConflict| kept_on_commit(c));
        let kdp = dp.filter(|d: (DiffKind, Seq<char>)| d.0 != DiffKind::Rem);
        assert(cs.last() == cs[n] && ds.last() == ds[n]);
        match ds[n].0 {
            DiffKind::Same => assert(cs[n].diff_type@ == "same"@),
            DiffKind::Add => assert(cs[n].diff_type@ == "add"@),
            DiffKind::Rem => {
                assert(cs[n].diff_type@ == "rem"@);
                assert("rem"@ != "add"@ && "rem"@ != "same"@) by {
                    assert("rem"@[0] != "add"@[0]);
                    assert("rem"@[0] != "same"@[0]);
                }
            },
        }
        assert(kept_on_commit(cs.last()) <==> ds.last().0 != DiffKind::Rem);
        if ds.last().0 != DiffKind::Rem {
            assert(kc == kcp.push(cs.last()));
            assert(kd == kdp.push(ds.last()));
            assert(kc.map_values(|c: DiaryConflict| c.diff_text@) =~= kcp.map_values(|c: DiaryConflict| c.diff_text@).push(cs.last().diff_text@));
            assert(kd.map_values(|d: (DiffKind, Seq<char>)| d.1) =~= kdp.map_values(|d: (DiffKind, Seq<char>)| d.1).push(ds.last().1));
        } else {
            assert(kc == kcp);
            assert(kd == kdp);
        }
    }
}

/// Committing the conflict of a planned update, its lines unreviewed,
/// writes the common and added runs of the difference joined by newlines:
/// the removed lines are dropped and every other line kept in order.
pub proof fn law_commit_of_planned_conflict(
    r: UpdatePlan,
    diffs: Seq<(DiffKind, Seq<char>)>,
    distance: int,
    insert_new: bool,
    date: Date,
    now: DateTimeWrapper,
)
    requires
        plan_spec(r, diffs, distance, insert_new, date, now),
        distance > 0,
        removed_count(diffs) > 0,
    ensures
        commit_text_spec(r.conflicts@) == join_seq(new_side_texts(diffs), "\n"@),
{
    lemma_kept_lines(r.conflicts@, diffs, now, date);
}

/// What committing a conflict (its lines in order) writes: the day of the
/// lines and the new text of that day (`CommitConflict`).
pub fn commit_conflict_plan(conflicts: &Vec<DiaryConflict>) -> (r: Result<(Date, String), CommitError>)
    ensures
        conflicts@.len() == 0 ==> r == Err::<(Date, String), CommitError>(CommitError::NoConflicts),
        conflicts@.len() > 0 && (exists|k: int| 0 <= k < conflicts@.len() && (#[trigger] conflicts@[k]).diary_date != conflicts@[0].diary_date)
            ==> r == Err::<(Date, String), CommitError>(CommitError::SeveralDates),
        conflicts@.len() > 0 && (forall|k: int| 0 <= k < conflicts@.len() ==> (#[trigger] conflicts@[k]).diary_date == conflicts@[0].diary_date)
            ==> (r matches Ok((d, t)) && d == conflicts@[0].diary_date && t@ == commit_text_spec(conflicts@)),
{
    if conflicts.len() == 0 {
        return Err(CommitError::NoConflicts);
    }
    let first = conflicts[0].diary_date;
    let mut k: usize = 1;
    while k < conflicts.len()
        invariant
            1 <= k <= conflicts@.len(),
            first == conflicts@[0].diary_date,
            forall|j: int| 0 <= j < k ==> (#[trigger] conflicts@[j]).diary_date == first,
        decreases conflicts@.len() - k,
    {
        if !conflicts[k].diary_date.same_day(&first) {
            proof {
                Date::lemma_view_injective(conflicts@[k as int].diary_date, first);
            }
            return Err(CommitError::SeveralDates);
        }
        proof {
            Date::lemma_view_injective(conflicts@[k as int].diary_date, first);
        }
        k += 1;
    }
    let ghost pred = |c: DiaryConflict| kept_on_commit(c);
    let mut kept: Vec<String> = Vec::new();
    let mut i: usize = 0;
    assert(conflicts@.take(0) =~= Seq::<DiaryConflict>::empty());
    while i < conflicts.len()
        invariant
            i <= conflicts@.len(),
            pred == (|c: DiaryConflict| kept_on_commit(c)),
            views(kept@) == conflicts@.take(i as int).filter(pred).map_values(|c: DiaryConflict| c.diff_text@),
        decreases conflicts@.len() - i,
    {
        proof {
            reveal_with_fuel(Seq::<_>::filter, 1);
            assert(conflicts@.take(i + 1).drop_last() =~= conflicts@.take(i as int));
        }
        let ty = str_chars(conflicts[i].diff_type.as_str());
        let ghost before = kept@;
        if chars_equal(&ty, "add") || chars_equal(&ty, "same") {
            kept.push(copy_string(&conflicts[i].diff_text));
            proof {
                assert(views(kept@) =~= views(before).push(conflicts@[i as int].diff_text@));
            }
        }
        i += 1;
    }
    assert(conflicts@.take(conflicts@.len() as int) =~= conflicts@);
    Ok((first, join(&kept, "\n")))
}

/// The diff type a review may set: `rem` or `add`.
pub open spec fn reviewed_diff_type(s: Seq<char>) -> Option<Seq<char>> {
    if s == "rem"@ {
        Some("rem"@)
    } else if s == "add"@ {
        Some("add"@)
    } else {
        None
    }
}

/// The error of a review that sets another diff type.
#[derive(Clone, Copy, PartialEq, Eq, Structural, Debug)]
pub struct BadDiffType;

/// The diff type a conflict line is set to by a review (`UpdateConflict`).
pub fn reviewed_type(diff_text: &str) -> (r: Result<&'static str, BadDiffType>)
    ensures
        r matches Ok(t) ==> reviewed_diff_type(diff_text@) == Some(t@),
        r is Err ==> reviewed_diff_type(diff_text@) is None,
{
    let v = str_chars(diff_text);
    if chars_equal(&v, "rem") {
        Ok("rem")
    } else if chars_equal(&v, "add") {
        Ok("add")
    } else {
        Err(BadDiffType)
    }
}

/// A conflict line as the command line shows it: removed lines in red,
/// added lines in green, others plain.
pub open spec fn conflict_display_spec(diff_type: Seq<char>, diff_text: Seq<char>) -> Seq<char> {
    if diff_type == "rem"@ {
        "\x1b[91m"@ + diff_text + "\x1b[0m"@
    } else if diff_type == "add"@ {
        "\x1b[92m"@ + diff_text + "\x1b[0m"@
    } else {
        diff_text
    }
}

/// The colored rendering of a conflict line.
pub fn conflict_display_line(c: &DiaryConflict) -> (r: String)
    ensures
        r@ == conflict_display_spec(c.diff_type@, c.diff_text@),
{
    let ty = str_chars(c.diff_type.as_str());
    if chars_equal(&ty, "rem") {
        let mut s = to_owned_string("\x1b[91m");
        push_str(&mut s, c.diff_text.as_str());
        push_str(&mut s, "\x1b[0m");
        s
    } else if chars_equal(&ty, "add") {
        let mut s = to_owned_string("\x1b[92m");
        push_str(&mut s, c.diff_text.as_str());
        push_str(&mut s, "\x1b[0m");
        s
    } else {
        copy_string(&c.diff_text)
    }
}

/// `s` with every `Z` replaced by `+00:00` (`str::replace('Z', "+00:00")`).
pub open spec fn replace_z_spec(s: Seq<char>) -> Seq<char>
    decreases s.len(),
{
    if s.len() == 0 {
        Seq::empty()
    } else {
        replace_z_spec(s.drop_last()) + if s.last() == 'Z' {
            "+00:00"@
        } else {
            seq![s.last()]
        }
    }
}

/// `s` with every `Z` replaced by `+00:00`.
pub fn replace_z(s: &str) -> (r: String)
    ensures
        r@ == replace_z_spec(s@),
{
    let v = str_chars(s);
    let mut r = String::new();
    let mut i: usize = 0;
    assert(v@.take(0) =~= Seq::<char>::empty());
    while i < v.len()
        invariant
            i <= v@.len(),
            r@ == replace_z_spec(v@.take(i as int)),
        decreases v@.len() - i,
    {
        assert(v@.take(i + 1).drop_last() =~= v@.take(i as int));
        if v[i] == 'Z' {
            push_str(&mut r, "+00:00");
        } else {
            push_char(&mut r, v[i]);
            assert(r@ =~= replace_z_spec(v@.take(i as int)) + seq![v@[i as int]]);
        }
        i += 1;
    }
    assert(v@.take(v@.len() as int) =~= v@);
    r
}

/// What `OffsetDateTime::parse(text, &Rfc3339)` gives, as nanoseconds since
/// the Unix epoch.
pub uninterp spec fn spec_time_parse_rfc3339(text: Seq<char>) -> Option<int>;

/// `OffsetDateTime::parse(text, &Rfc3339)`, the instant given in
/// nanoseconds since the Unix epoch. The contract names the result and says
/// nothing of its range: a year of four digits with a large offset can lie
/// outside the years the diary's instants cover.
#[verifier::external_body]
fn time_parse_rfc3339(text: &str) -> (r: Option<i128>)
    ensures
        r matches Some(n) ==> spec_time_parse_rfc3339(text@) == Some(n as int),
        r is None ==> spec_time_parse_rfc3339(text@) is None,
{
    time::OffsetDateTime::parse(text, &time::format_description::well_known::Rfc3339)
        .ok()
        .map(|t| t.unix_timestamp_nanos())
}

/// Whether an RFC 3339 reading gave an instant the diary covers.
pub open spec fn instant_in_range(n: Option<int>) -> bool {
    match n {
        Some(v) => MIN_UNIX_NANOS <= v <= MAX_UNIX_NANOS,
        None => false,
    }
}

/// The instant a conflict is named by on the command line: the text with `Z`
/// written as `+00:00`, read as RFC 3339; none when it does not read or lies
/// outside the years the diary covers.
pub fn parse_conflict_timestamp(text: &str) -> (r: Option<DateTimeWrapper>)
    ensures
        r matches Some(t) ==> spec_time_parse_rfc3339(replace_z_spec(text@)) == Some(t@),
        r is None <==> !instant_in_range(spec_time_parse_rfc3339(replace_z_spec(text@))),
{
    let s = replace_z(text);
    match time_parse_rfc3339(s.as_str()) {
        Some(n) => DateTimeWrapper::from_unix_timestamp_nanos(n),
        None => None,
    }
}


// ---------------------------------------------------------------------------
// Reviewing a conflict on the web page
// ---------------------------------------------------------------------------

/// How a conflict line is offered for review.
#[derive(Clone, Copy, PartialEq, Eq, Structural, Debug)]
pub enum ReviewControl {
    /// A removed line, shown in red, with a button that takes it back
    /// (`Add`).
    OfferAdd,
    /// An added line, shown in blue, with a button that drops it (`Rm`).
    OfferRemove,
    /// Any other line, shown plain, without a button.
    Plain,
}

/// The control a line of the given diff type gets.
pub open spec fn review_control_spec(diff_type: Seq<char>) -> ReviewControl {
    if diff_type == "rem"@ {
        ReviewControl::OfferAdd
    } else if diff_type == "add"@ {
        ReviewControl::OfferRemove
    } else {
        ReviewControl::Plain
    }
}

/// Number of newlines in a text.
pub open spec fn newline_count(s: Seq<char>) -> nat
    decreases s.len(),
{
    if s.len() == 0 {
        0
    } else {
        newline_count(s.drop_last()) + if s.last() == '\n' {
            1nat
        } else {
            0nat
        }
    }
}

/// The control of a conflict line and the rows of its text box: one more
/// than the pieces between its newlines.
pub fn review_widget(c: &DiaryConflict) -> (r: (ReviewControl, usize))
    requires
        c.diff_text@.len() + 2 <= usize::MAX,
    ensures
        r.0 == review_control_spec(c.diff_type@),
        r.1 == newline_count(c.diff_text@) + 2,
{
    let ty = str_chars(c.diff_type.as_str());
    let control = if chars_equal(&ty, "rem") {
        ReviewControl::OfferAdd
    } else if chars_equal(&ty, "add") {
        ReviewControl::OfferRemove
    } else {
        ReviewControl::Plain
    };
    let t = str_chars(c.diff_text.as_str());
    let mut n: usize = 0;
    let mut i: usize = 0;
    while i < t.len()
        invariant
            i <= t@.len(),
            n == newline_count(t@.take(i as int)),
            n <= i,
            t@ == c.diff_text@,
            c.diff_text@.len() + 2 <= usize::MAX,
        decreases t@.len() - i,
    {
        assert(t@.take(i + 1).drop_last() =~= t@.take(i as int));
        if t[i] == '\n' {
            n += 1;
        }
        i += 1;
    }
    assert(t@.take(t@.len() as int) =~= t@);
    (control, n + 2)
}

/// Whether the review page lists the lines of a conflict: only when they
/// all belong to one day (lines of several days show nothing).
pub fn lists_review_lines(conflicts: &Vec<DiaryConflict>) -> (r: bool)
    ensures
        r == forall|j: int, k: int| 0 <= j < conflicts@.len() && 0 <= k < conflicts@.len()
            ==> (#[trigger] conflicts@[j]).diary_date == (#[trigger] conflicts@[k]).diary_date,
{
    if conflicts.len() == 0 {
        return true;
    }
    let first = conflicts[0].diary_date;
    let mut k: usize = 1;
    while k < conflicts.len()
        invariant
            1 <= k <= conflicts@.len(),
            first == conflicts@[0].diary_date,
            forall|j: int| 0 <= j < k ==> (#[trigger] conflicts@[j]).diary_date == first,
        decreases conflicts@.len() - k,
    {
        if !conflicts[k].diary_date.same_day(&first) {
            proof {
                Date::lemma_view_injective(conflicts@[k as int].diary_date, first);
            }
            return false;
        }
        proof {
            Date::lemma_view_injective(conflicts@[k as int].diary_date, first);
        }
        k += 1;
    }
    true
}

} // verus!
