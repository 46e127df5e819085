//! The records the diary keeps: dated entries, the cache of quick notes, and
//! the conflict lines a rewrite of an entry leaves behind.
use vstd::prelude::*;

use crate::date::{
    date_display, display_datetime, push_date, spec_time_display_datetime, whole_milliseconds, Date,
    DateTimeWrapper, MAX_UNIX_NANOS, MIN_UNIX_NANOS,
};
use crate::text::{copy_string, push_str};

verus! {

/// The number of bytes of the UTF-8 encoding of `s` (`str::len`).
pub open spec fn byte_len(s: Seq<char>) -> usize {
    vstd::utf8::encode_utf8(s).len() as usize
}

/// `str::len`, the length of the text in bytes.
pub fn text_len(s: &String) -> (r: usize)
    ensures
        r == byte_len(s@),
{
    s.as_str().len()
}

/// What `OffsetDateTime::now_utc` gives.
#[verifier::external_body]
fn now_utc_nanos() -> (r: i128)
    ensures
        MIN_UNIX_NANOS <= r <= MAX_UNIX_NANOS,
{
    time::OffsetDateTime::now_utc().unix_timestamp_nanos()
}

impl DateTimeWrapper {
    /// The current instant (`OffsetDateTime::now_utc`).
    pub fn now() -> (r: DateTimeWrapper)
        ensures
            MIN_UNIX_NANOS <= r@ <= MAX_UNIX_NANOS,
    {
        let n = now_utc_nanos();
        match DateTimeWrapper::from_unix_timestamp_nanos(n) {
            Some(t) => t,
            None => DateTimeWrapper::year_zero(),
        }
    }
}

/// One diary entry: the text of a day.
#[derive(Clone, Debug)]
pub struct DiaryEntries {
    pub diary_date: Date,
    pub diary_text: String,
    pub last_modified: DateTimeWrapper,
}

/// A note waiting in the cache to be merged into the entry of its day.
#[derive(Clone, Debug)]
pub struct DiaryCache {
    pub diary_datetime: DateTimeWrapper,
    pub diary_text: String,
}

/// A user allowed to reach the diary.
#[derive(Clone, Debug)]
pub struct AuthorizedUsers {
    pub email: String,
    pub telegram_userid: Option<i64>,
    pub created_at: DateTimeWrapper,
}

/// One line of the difference between the stored text of a day and a
/// rewrite of it.
#[derive(Clone, Debug)]
pub struct DiaryConflict {
    pub id: u128,
    pub sync_datetime: DateTimeWrapper,
    pub diary_date: Date,
    pub diff_type: String,
    pub diff_text: String,
    pub sequence: i32,
}

/// `Uuid::new_v4`, as its 128 bit value; nothing is claimed of the random
/// value.
#[verifier::external_body]
fn new_uuid_v4() -> u128 {
    uuid::Uuid::new_v4().as_u128()
}

impl DiaryEntries {
    /// An entry for `diary_date` holding `diary_text`, modified now.
    pub fn new(diary_date: Date, diary_text: &str) -> (r: DiaryEntries)
        ensures
            r.diary_date == diary_date,
            r.diary_text@ == diary_text@,
    {
        DiaryEntries {
            diary_date,
            diary_text: crate::text::to_owned_string(diary_text),
            last_modified: DateTimeWrapper::now(),
        }
    }

    /// A copy of the entry.
    pub fn duplicate(&self) -> (r: DiaryEntries)
        ensures
            r.diary_date == self.diary_date,
            r.diary_text@ == self.diary_text@,
            r.last_modified == self.last_modified,
    {
        DiaryEntries {
            diary_date: self.diary_date,
            diary_text: copy_string(&self.diary_text),
            last_modified: self.last_modified,
        }
    }
}

/// Two cache notes are the same note when their texts agree and their times
/// are less than a millisecond apart.
pub open spec fn same_cache_note(a: DiaryCache, b: DiaryCache) -> bool {
    a.diary_text@ == b.diary_text@ && whole_milliseconds(a.diary_datetime@ - b.diary_datetime@) == 0
}

impl DiaryCache {
    /// Equality of cache notes (the diary's `PartialEq` for them).
    pub fn eq(&self, other: &DiaryCache) -> (r: bool)
        ensures
            r == same_cache_note(*self, *other),
    {
        let same_text = crate::commands::chars_equal(
            &crate::text::str_chars(self.diary_text.as_str()),
            other.diary_text.as_str(),
        );
        same_text && self.diary_datetime.whole_milliseconds_since(&other.diary_datetime) == 0
    }

    /// A copy of the note.
    pub fn duplicate(&self) -> (r: DiaryCache)
        ensures
            r.diary_datetime == self.diary_datetime,
            r.diary_text@ == self.diary_text@,
    {
        DiaryCache { diary_datetime: self.diary_datetime, diary_text: copy_string(&self.diary_text) }
    }
}

impl DiaryConflict {
    /// A conflict line with a fresh random id.
    pub fn new(
        sync_datetime: DateTimeWrapper,
        diary_date: Date,
        diff_type: &str,
        diff_text: &str,
        sequence: i32,
    ) -> (r: DiaryConflict)
        ensures
            r.sync_datetime == sync_datetime,
            r.diary_date == diary_date,
            r.diff_type@ == diff_type@,
            r.diff_text@ == diff_text@,
            r.sequence == sequence,
    {
        DiaryConflict {
            id: new_uuid_v4(),
            sync_datetime,
            diary_date,
            diff_type: crate::text::to_owned_string(diff_type),
            diff_text: crate::text::to_owned_string(diff_text),
            sequence,
        }
    }
}

/// `{date}\n{text}`: how an entry is shown.
pub open spec fn entry_line_spec(date: (int, int, int), text: Seq<char>) -> Seq<char> {
    date_display(date) + seq!['\n'] + text
}

/// An entry as the diary shows it: its date, a newline, its text.
pub fn entry_line(entry: &DiaryEntries) -> (r: String)
    ensures
        r@ == entry_line_spec(entry.diary_date@, entry.diary_text@),
{
    let mut s = String::new();
    push_date(&mut s, &entry.diary_date);
    crate::text::push_char(&mut s, '\n');
    push_str(&mut s, entry.diary_text.as_str());
    assert(s@ =~= entry_line_spec(entry.diary_date@, entry.diary_text@));
    s
}

/// `{prefix}{instant}`, with the instant as `time` displays it.
pub open spec fn instant_line_spec(prefix: Seq<char>, t: int) -> Seq<char> {
    prefix + spec_time_display_datetime(t)
}

/// A prefix followed by an instant as `time` displays it, e.g.
/// `remove 2022-01-01 1:02:03.0 +00:00:00`.
pub fn instant_line(prefix: &str, t: &DateTimeWrapper) -> (r: String)
    ensures
        r@ == instant_line_spec(prefix@, t@),
{
    let mut s = crate::text::to_owned_string(prefix);
    let d = display_datetime(t);
    push_str(&mut s, d.as_str());
    s
}

/// A prefix followed by a date, e.g. `update 2011-05-23`.
pub fn date_line(prefix: &str, d: &Date) -> (r: String)
    ensures
        r@ == prefix@ + date_display(d@),
{
    let mut s = crate::text::to_owned_string(prefix);
    push_date(&mut s, d);
    s
}


/// The equality of cache notes is reflexive and symmetric. It is not
/// transitive: notes 0.6 ms apart are each the same as a note between them
/// but not as each other.
pub proof fn law_same_cache_note_reflexive_symmetric(a: DiaryCache, b: DiaryCache)
    ensures
        same_cache_note(a, a),
        same_cache_note(a, b) ==> same_cache_note(b, a),
{
}

} // verus!
