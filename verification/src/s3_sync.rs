//! The S3 side of synchronisation: reading bucket listings, and deciding
//! which days go up to the bucket and which come down from it.
use vstd::prelude::*;

use crate::date::{
    date_display, diary_file_format, parse_date, spec_time_parse_date, valid_date, whole_seconds, Date,
    DateTimeWrapper,
};
use crate::models::{byte_len, text_len, DiaryEntries};
use crate::text::{copy_string, push_str, trim, trim_seq, int_decimal, nat_decimal, push_decimal};

verus! {

/// How long (in seconds) a bucket listing stays fresh is five times this.
pub const TIME_BUFFER: i64 = 60;

/// What the diary knows of one object of the bucket.
#[derive(Clone, Copy, Debug)]
pub struct KeyMetaData {
    pub date: Date,
    pub last_modified: DateTimeWrapper,
    pub size: i64,
}

/// Why an object of the bucket is not a diary day.
#[derive(Clone, Copy, PartialEq, Eq, Structural, Debug)]
pub enum KeyError {
    /// The object has no key.
    NoKey,
    /// The key is no `YYYY-MM-DD.txt` name.
    BadKey,
}

/// The date a file or key name `YYYY-MM-DD.txt` stands for, as `time` parses it.
pub open spec fn file_name_date(name: Seq<char>) -> Option<(int, int, int)> {
    match spec_time_parse_date(name, diary_file_format()@) {
        Some(v) => if valid_date(v.0, v.1, v.2) {
            Some(v)
        } else {
            None
        },
        None => None,
    }
}

impl KeyMetaData {
    /// The day an object of the bucket holds: its key must name a date; a
    /// missing modification time counts as now.
    pub fn try_from_object(key: Option<&str>, last_modified: Option<DateTimeWrapper>, size: i64) -> (r: Result<KeyMetaData, KeyError>)
        ensures
            key is None ==> r == Err::<KeyMetaData, KeyError>(KeyError::NoKey),
            key matches Some(k) ==> match file_name_date(k@) {
                None => r == Err::<KeyMetaData, KeyError>(KeyError::BadKey),
                Some(d) => (r matches Ok(m) && m.date@ == d && m.size == size && (last_modified matches Some(t) ==> m.last_modified == t)),
            },
    {
        let k = match key {
            Some(k) => k,
            None => return Err(KeyError::NoKey),
        };
        let date = match parse_date(k, diary_file_format()) {
            Some(d) => d,
            None => return Err(KeyError::BadKey),
        };
        let last_modified = match last_modified {
            Some(t) => t,
            None => DateTimeWrapper::now(),
        };
        Ok(KeyMetaData { date, last_modified, size })
    }
}

/// The key of a day in the bucket, `YYYY-MM-DD.txt`.
pub open spec fn day_key_spec(d: (int, int, int)) -> Seq<char> {
    date_display(d) + ".txt"@
}

/// The key (or file name) of a day, `YYYY-MM-DD.txt`.
pub fn day_key(d: &Date) -> (r: String)
    ensures
        r@ == day_key_spec(d@),
{
    let mut s = String::new();
    crate::date::push_date(&mut s, d);
    push_str(&mut s, ".txt");
    assert(s@ =~= day_key_spec(d@));
    s
}

/// The modification time and size the listing gives for a day: the last
/// object listed for it (as collecting the listing into a map keeps).
pub open spec fn listed_spec(keys: Seq<KeyMetaData>, d: Date) -> Option<(DateTimeWrapper, i64)>
    decreases keys.len(),
{
    if keys.len() == 0 {
        None
    } else if keys.last().date@ == d@ {
        Some((keys.last().last_modified, keys.last().size))
    } else {
        listed_spec(keys.drop_last(), d)
    }
}

/// Looks a day up in a bucket listing.
pub fn listed(keys: &Vec<KeyMetaData>, d: &Date) -> (r: Option<(DateTimeWrapper, i64)>)
    ensures
        r == listed_spec(keys@, *d),
{
    let mut i = keys.len();
    assert(keys@.take(keys@.len() as int) =~= keys@);
    while i > 0
        invariant
            i <= keys@.len(),
            listed_spec(keys@, *d) == listed_spec(keys@.take(i as int), *d),
        decreases i,
    {
        assert(keys@.take(i as int).drop_last() =~= keys@.take(i - 1));
        if keys[i - 1].date.same_day(d) {
            return Some((keys[i - 1].last_modified, keys[i - 1].size));
        }
        i -= 1;
    }
    None
}

/// The days among the objects of a listing (key, modification time, size),
/// in order: date, size and modification time (when the listing gives one).
pub open spec fn object_days(objects: Seq<(Option<String>, Option<DateTimeWrapper>, i64)>) -> Seq<((int, int, int), i64, Option<DateTimeWrapper>)>
    decreases objects.len(),
{
    if objects.len() == 0 {
        Seq::empty()
    } else {
        let o = objects.last();
        let rest = object_days(objects.drop_last());
        match o.0 {
            Some(k) => match file_name_date(k@) {
                Some(d) => rest.push((d, o.2, o.1)),
                None => rest,
            },
            None => rest,
        }
    }
}

/// The objects of a listing that are diary days, in order.
pub fn listing_days(objects: &Vec<(Option<String>, Option<DateTimeWrapper>, i64)>) -> (r: Vec<KeyMetaData>)
    ensures
        r@.len() == object_days(objects@).len(),
        forall|k: int| 0 <= k < r@.len() ==> {
            let o = #[trigger] object_days(objects@)[k];
            &&& r@[k].date@ == o.0
            &&& r@[k].size == o.1
            &&& (o.2 matches Some(t) ==> r@[k].last_modified == t)
        },
{
    let mut r: Vec<KeyMetaData> = Vec::new();
    let mut i: usize = 0;
    assert(objects@.take(0) =~= Seq::<(Option<String>, Option<DateTimeWrapper>, i64)>::empty());
    while i < objects.len()
        invariant
            i <= objects@.len(),
            r@.len() == object_days(objects@.take(i as int)).len(),
            forall|k: int| 0 <= k < r@.len() ==> {
                let o = #[trigger] object_days(objects@.take(i as int))[k];
                &&& r@[k].date@ == o.0
                &&& r@[k].size == o.1
                &&& (o.2 matches Some(t) ==> r@[k].last_modified == t)
            },
        decreases objects@.len() - i,
    {
        let ghost before = object_days(objects@.take(i as int));
        assert(objects@.take(i + 1).drop_last() =~= objects@.take(i as int));
        let key: Option<&str> = match &objects[i].0 {
            Some(k) => Some(k.as_str()),
            None => None,
        };
        if let Ok(m) = KeyMetaData::try_from_object(key, objects[i].1, objects[i].2) {
            r.push(m);
        }
        proof {
            let now = object_days(objects@.take(i + 1));
            assert forall|k: int| 0 <= k < r@.len() implies {
                let o = #[trigger] now[k];
                &&& r@[k].date@ == o.0
                &&& r@[k].size == o.1
                &&& (o.2 matches Some(t) ==> r@[k].last_modified == t)
            } by {
                if k < before.len() {
                    assert(now[k] == before[k]);
                }
            }
        }
        i += 1;
    }
    assert(objects@.take(objects@.len() as int) =~= objects@);
    r
}

/// Whether a listing made at `filled_at` is too old at `now` (more than
/// `5 * TIME_BUFFER` whole seconds).
pub fn listing_is_stale(filled_at: &DateTimeWrapper, now: &DateTimeWrapper) -> (r: bool)
    ensures
        r == (whole_seconds(now@ - filled_at@) > 5 * TIME_BUFFER),
{
    now.whole_seconds_since(filled_at) > 5 * TIME_BUFFER
}

/// The decision for one day, possibly waiting on the stored entry.
#[derive(Clone, Copy, PartialEq, Eq, Structural, Debug)]
pub enum S3Check {
    /// Transfer the day.
    Always,
    /// Leave the day.
    Never,
    /// Transfer the day if its stored entry is longer (in bytes) than this.
    IfStoredLonger(i64),
    /// Transfer the day if its stored entry's length (in bytes) differs from
    /// this.
    IfStoredSizeDiffers(i64),
}

/// Whether a day goes up to the bucket: when the bucket does not have it, or
/// when the diary's copy is at least a second newer and longer than the
/// bucket's.
pub fn export_check(last_modified: &DateTimeWrapper, listed: Option<(DateTimeWrapper, i64)>) -> (r: S3Check)
    ensures
        r == match listed {
            None => S3Check::Always,
            Some((lm, size)) => if whole_seconds(last_modified@ - lm@) > 0 {
                S3Check::IfStoredLonger(size)
            } else {
                S3Check::Never
            },
        },
{
    match listed {
        None => S3Check::Always,
        Some((lm, size)) => {
            if last_modified.whole_seconds_since(&lm) > 0 {
                S3Check::IfStoredLonger(size)
            } else {
                S3Check::Never
            }
        },
    }
}

/// Whether a listed object comes down from the bucket, and whether the
/// downloaded text then replaces the stored one: a day the diary lacks
/// always comes down; a day the diary has comes down when the bucket's copy
/// is at least a second newer and of another length. Empty objects never
/// come down.
pub fn import_check(obj: &KeyMetaData, existing: Option<DateTimeWrapper>) -> (r: (S3Check, bool))
    ensures
        r == match existing {
            None => (if obj.size > 0 {
                S3Check::Always
            } else {
                S3Check::Never
            }, true),
            Some(cur) => {
                let newer = whole_seconds(cur@ - obj.last_modified@) < 0;
                (if obj.size > 0 && newer {
                    S3Check::IfStoredSizeDiffers(obj.size)
                } else {
                    S3Check::Never
                }, newer)
            },
        },
{
    match existing {
        None => (if obj.size > 0 {
            S3Check::Always
        } else {
            S3Check::Never
        }, true),
        Some(cur) => {
            let newer = cur.whole_seconds_since(&obj.last_modified) < 0;
            (if obj.size > 0 && newer {
                S3Check::IfStoredSizeDiffers(obj.size)
            } else {
                S3Check::Never
            }, newer)
        },
    }
}

/// The answer of a check once the stored entry of the day (if any) is known.
pub open spec fn resolve_spec(check: S3Check, stored: Option<DiaryEntries>) -> bool {
    match check {
        S3Check::Always => true,
        S3Check::Never => false,
        S3Check::IfStoredLonger(s) => (stored matches Some(e) && s < byte_len(e.diary_text@)),
        S3Check::IfStoredSizeDiffers(s) => (stored matches Some(e) && s != byte_len(e.diary_text@)),
    }
}

/// Settles a check with the stored entry of the day.
pub fn resolve_check(check: S3Check, stored: &Option<DiaryEntries>) -> (r: bool)
    ensures
        r == resolve_spec(check, *stored),
{
    match check {
        S3Check::Always => true,
        S3Check::Never => false,
        S3Check::IfStoredLonger(s) => match stored {
            Some(e) => (s as i128) < (text_len(&e.diary_text) as i128),
            None => false,
        },
        S3Check::IfStoredSizeDiffers(s) => match stored {
            Some(e) => (s as i128) != (text_len(&e.diary_text) as i128),
            None => false,
        },
    }
}

/// Whether a text is blank: nothing is left of it after trimming.
pub open spec fn is_blank(t: Seq<char>) -> bool {
    trim_seq(t).len() == 0
}

/// The entry an upload sends: the stored entry unless its text is blank.
pub open spec fn upload_spec(stored: Option<DiaryEntries>) -> Option<DiaryEntries> {
    match stored {
        Some(e) => if is_blank(e.diary_text@) {
            None
        } else {
            Some(e)
        },
        None => None,
    }
}

/// The stored entry, if it is worth uploading: blank texts stay home.
pub fn upload_candidate(stored: Option<DiaryEntries>) -> (r: Option<DiaryEntries>)
    ensures
        r == upload_spec(stored),
{
    match stored {
        Some(e) => {
            let t = trim(e.diary_text.as_str());
            if crate::text::str_chars(t.as_str()).len() == 0 {
                None
            } else {
                Some(e)
            }
        },
        None => None,
    }
}

/// The day and text a download of `text` for `date` gives: none when the
/// text is blank.
pub open spec fn download_spec(date: Date, text: Seq<char>) -> Option<(Date, Seq<char>)> {
    if is_blank(text) {
        None
    } else {
        Some((date, text))
    }
}

/// The entry made from a downloaded object: none when its text is blank.
pub fn downloaded_entry(date: Date, text: String, last_modified: DateTimeWrapper) -> (r: Option<DiaryEntries>)
    ensures
        match r {
            None => download_spec(date, text@) is None,
            Some(e) => download_spec(date, text@) == Some((e.diary_date, e.diary_text@)) && e.last_modified
                == last_modified,
        },
{
    let t = trim(text.as_str());
    if crate::text::str_chars(t.as_str()).len() == 0 {
        None
    } else {
        Some(DiaryEntries { diary_date: date, diary_text: text, last_modified })
    }
}

/// What is uploaded downloads again: a day an upload sends (under the key
/// `day_key` gives its date, which the download reads too) comes back, when
/// the bucket returns the text that was put, as the same day with the same
/// text; a blank day is neither sent nor taken back.
pub proof fn law_download_returns_upload(stored: Option<DiaryEntries>)
    ensures
        upload_spec(stored) matches Some(e) ==> download_spec(e.diary_date, e.diary_text@) == Some(
            (e.diary_date, e.diary_text@),
        ),
        stored matches Some(e) ==> (upload_spec(stored) is None <==> download_spec(e.diary_date, e.diary_text@) is None),
{
}

/// A day whose bucket copy and stored entry differ in length.
pub open spec fn s3_mismatch_spec(date: Date, s3_len: usize, diary_len: usize) -> Option<(Date, usize, usize)> {
    if diary_len == s3_len {
        None
    } else {
        Some((date, s3_len, diary_len))
    }
}

/// The report on a day kept in the bucket: `None` when the bucket copy and
/// the stored entry have the same length.
pub fn s3_mismatch(date: Date, s3_len: usize, diary_len: usize) -> (r: Option<(Date, usize, usize)>)
    ensures
        r == s3_mismatch_spec(date, s3_len, diary_len),
{
    if diary_len == s3_len {
        None
    } else {
        Some((date, s3_len, diary_len))
    }
}

/// How many more keys a listing may still fetch after a page of `got` keys,
/// when it started with a limit (`max_keys - contents.len() as i32`).
pub fn remaining_keys(max_keys: Option<i32>, got: usize) -> (r: Option<i32>)
    requires
        max_keys matches Some(n) ==> n - got >= i32::MIN,
        got <= i32::MAX,
    ensures
        r == match max_keys {
            Some(n) => Some((n - got) as i32),
            None => None,
        },
{
    match max_keys {
        Some(n) => Some(n - got as i32),
        None => None,
    }
}

} // verus!
