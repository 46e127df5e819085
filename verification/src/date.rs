//! Calendar dates and UTC instants as plain values, with the parsing,
//! formatting and date arithmetic that the `time` crate provides for them.
use vstd::prelude::*;

use crate::text::{push_char, push_padded_decimal, padded_decimal};

verus! {

// ---------------------------------------------------------------------------
// Calendar
// ---------------------------------------------------------------------------

/// Smallest year of the calendar the diary works in.
pub const MIN_YEAR: i32 = -9999;

/// Largest year of the calendar the diary works in.
pub const MAX_YEAR: i32 = 9999;

/// Gregorian leap year rule.
pub open spec fn is_leap_year(y: int) -> bool {
    y % 4 == 0 && (y % 100 != 0 || y % 400 == 0)
}

/// Number of days of month `m` (1..=12) in year `y`.
pub open spec fn days_in_month(y: int, m: int) -> int {
    if m == 2 {
        if is_leap_year(y) {
            29
        } else {
            28
        }
    } else if m == 4 || m == 6 || m == 9 || m == 11 {
        30
    } else {
        31
    }
}

/// Whether `(y, m, d)` names a day of the proleptic Gregorian calendar in the
/// supported range of years.
pub open spec fn valid_date(y: int, m: int, d: int) -> bool {
    &&& MIN_YEAR <= y <= MAX_YEAR
    &&& 1 <= m <= 12
    &&& 1 <= d <= days_in_month(y, m)
}

/// Orders dates: `date_key(a) < date_key(b)` exactly when `a` comes first.
pub open spec fn date_key(v: (int, int, int)) -> int {
    (v.0 * 256 + v.1) * 256 + v.2
}

/// `time::Date`'s `Display`: an optional `-`, the year in at least four
/// digits, then month and day in two digits, separated by `-`.
pub open spec fn date_display(v: (int, int, int)) -> Seq<char> {
    let year = if v.0 < 0 {
        seq!['-'] + padded_decimal((-v.0) as nat, 4)
    } else {
        padded_decimal(v.0 as nat, 4)
    };
    year + seq!['-'] + padded_decimal(v.1 as nat, 2) + seq!['-'] + padded_decimal(v.2 as nat, 2)
}

/// A day of the calendar (`time::Date`).
#[derive(Clone, Copy, PartialEq, Eq, Structural, Debug, Hash, PartialOrd, Ord)]
pub struct Date {
    year: i32,
    month: u8,
    day: u8,
}

impl View for Date {
    type V = (int, int, int);

    closed spec fn view(&self) -> (int, int, int) {
        (self.year as int, self.month as int, self.day as int)
    }
}

impl Date {
    #[verifier::type_invariant]
    closed spec fn inv(self) -> bool {
        valid_date(self.year as int, self.month as int, self.day as int)
    }

    /// Two dates are equal exactly when their views are.
    pub proof fn lemma_view_injective(a: Date, b: Date)
        ensures
            a@ == b@ ==> a == b,
    {
    }

    /// Dates in key order have their years in order.
    pub proof fn lemma_key_year_order(a: Date, b: Date)
        ensures
            date_key(a@) <= date_key(b@) ==> a@.0 <= b@.0,
    {
        let (ya, ma, da) = (a.year as int, a.month as int, a.day as int);
        let (yb, mb, db) = (b.year as int, b.month as int, b.day as int);
        assert((ya * 256 + ma) * 256 + da <= (yb * 256 + mb) * 256 + db ==> ya <= yb) by (nonlinear_arith)
            requires
                0 <= ma < 256,
                0 <= da < 256,
                0 <= mb < 256,
                0 <= db < 256,
        ;
    }

    /// Dates with equal keys are equal.
    pub proof fn lemma_key_injective(a: Date, b: Date)
        ensures
            date_key(a@) == date_key(b@) ==> a == b,
    {
    }

    /// The date `year-month-day`, if that is a day of the calendar
    /// (`time::Date::from_calendar_date`).
    pub fn from_calendar_date(year: i32, month: u8, day: u8) -> (r: Option<Date>)
        ensures
            r is Some <==> valid_date(year as int, month as int, day as int),
            r matches Some(d) ==> d@ == (year as int, month as int, day as int),
    {
        if year < MIN_YEAR || year > MAX_YEAR || month < 1 || month > 12 || day < 1 {
            return None;
        }
        let leap = year % 4 == 0 && (year % 100 != 0 || year % 400 == 0);
        assert(leap == is_leap_year(year as int));
        let dim: u8 = if month == 2 {
            if leap {
                29
            } else {
                28
            }
        } else if month == 4 || month == 6 || month == 9 || month == 11 {
            30
        } else {
            31
        };
        if day > dim {
            None
        } else {
            Some(Date { year, month, day })
        }
    }

    pub fn year(&self) -> (r: i32)
        ensures
            r == self@.0,
            MIN_YEAR <= r <= MAX_YEAR,
            valid_date(self@.0, self@.1, self@.2),
    {
        proof {
            use_type_invariant(self);
        }
        self.year
    }

    pub fn month(&self) -> (r: u8)
        ensures
            r == self@.1,
            1 <= r <= 12,
    {
        proof {
            use_type_invariant(self);
        }
        self.month
    }

    pub fn day(&self) -> (r: u8)
        ensures
            r == self@.2,
            1 <= r <= 31,
    {
        proof {
            use_type_invariant(self);
        }
        self.day
    }

    /// A number that orders dates chronologically.
    pub fn key(&self) -> (r: i64)
        ensures
            r == date_key(self@),
            valid_date(self@.0, self@.1, self@.2),
    {
        proof {
            use_type_invariant(self);
        }
        (self.year as i64 * 256 + self.month as i64) * 256 + self.day as i64
    }

    /// Whether two dates are the same day.
    pub fn same_day(&self, other: &Date) -> (r: bool)
        ensures
            r == (self@ == other@),
    {
        self.year == other.year && self.month == other.month && self.day == other.day
    }

    /// The date as `time` displays it, e.g. `2011-05-23`.
    pub fn to_iso_string(&self) -> (r: String)
        ensures
            r@ == date_display(self@),
    {
        let mut s = String::new();
        push_date(&mut s, self);
        assert(s@ =~= date_display(self@));
        s
    }
}

/// Date keys follow the calendar: equal keys are the same day, and a
/// smaller key is an earlier year, or an earlier month of the same year, or
/// an earlier day of the same month.
pub proof fn law_date_key_chronological(a: (int, int, int), b: (int, int, int))
    requires
        valid_date(a.0, a.1, a.2),
        valid_date(b.0, b.1, b.2),
    ensures
        date_key(a) == date_key(b) <==> a == b,
        date_key(a) < date_key(b) <==> (a.0 < b.0 || (a.0 == b.0 && (a.1 < b.1 || (a.1 == b.1
            && a.2 < b.2)))),
{
}

/// Appends `date_display(d@)` to `s`.
pub fn push_date(s: &mut String, d: &Date)
    ensures
        final(s)@ == old(s)@ + date_display(d@),
{
    let y = d.year();
    if y < 0 {
        push_char(s, '-');
        push_padded_decimal(s, (-y) as u64, 4);
    } else {
        push_padded_decimal(s, y as u64, 4);
    }
    push_char(s, '-');
    push_padded_decimal(s, d.month() as u64, 2);
    push_char(s, '-');
    push_padded_decimal(s, d.day() as u64, 2);
    assert(final(s)@ =~= old(s)@ + date_display(d@));
}

// ---------------------------------------------------------------------------
// Calendar computations done by the `time` crate
// ---------------------------------------------------------------------------

/// What `time::Date::parse(text, format)` returns, as `(year, month, day)`,
/// for a text and a format description.
pub uninterp spec fn spec_time_parse_date(text: Seq<char>, format: Seq<char>) -> Option<(int, int, int)>;

/// What `time::Date::checked_sub(date, Duration::days(n))` returns for the
/// date `(year, month, day)`, as `(year, month, day)`.
pub uninterp spec fn spec_time_date_minus_days(year: int, month: int, day: int, n: int) -> Option<(int, int, int)>;

/// `time::Date::parse(text, &format_description::parse(format)?)`, the date
/// given back as year, month and day. The contract only names the result; it
/// is `None` where the format description itself does not parse.
#[verifier::external_body]
fn time_parse_date(text: &str, format: &str) -> (r: Option<(i32, u8, u8)>)
    ensures
        r matches Some(v) ==> spec_time_parse_date(text@, format@) == Some(
            (v.0 as int, v.1 as int, v.2 as int),
        ),
        r is None ==> spec_time_parse_date(text@, format@) is None,
{
    let description = time::format_description::parse(format).ok()?;
    time::Date::parse(text, &description).ok().map(|d| (d.year(), d.month() as u8, d.day()))
}

/// `time::Date::checked_sub(date, time::Duration::days(n))` for the date
/// `year-month-day`. The contract only names the result; it is `None` where
/// the arguments are no `time::Date`.
/// `Duration::days(n)` panics where `n` days in seconds overflow an `i64`;
/// `requires` leaves those `n` out.
#[verifier::external_body]
fn time_date_minus_days(year: i32, month: u8, day: u8, n: i64) -> (r: Option<(i32, u8, u8)>)
    requires
        i64::MIN <= n * 86400 <= i64::MAX,
    ensures
        r matches Some(v) ==> spec_time_date_minus_days(year as int, month as int, day as int, n as int)
            == Some((v.0 as int, v.1 as int, v.2 as int)),
        r is None ==> spec_time_date_minus_days(year as int, month as int, day as int, n as int) is None,
{
    let month = time::Month::try_from(month).ok()?;
    let date = time::Date::from_calendar_date(year, month, day).ok()?;
    date.checked_sub(time::Duration::days(n)).map(|d| (d.year(), d.month() as u8, d.day()))
}

/// The date that `time` parses from `text` with the format description
/// `format`, e.g. `"[year]-[month]-[day].txt"`.
pub fn parse_date(text: &str, format: &str) -> (r: Option<Date>)
    ensures
        r matches Some(d) ==> spec_time_parse_date(text@, format@) == Some(d@) && valid_date(d@.0, d@.1, d@.2),
        r is None ==> match spec_time_parse_date(text@, format@) {
            None => true,
            Some(v) => !valid_date(v.0, v.1, v.2),
        },
{
    match time_parse_date(text, format) {
        Some((y, m, d)) => Date::from_calendar_date(y, m, d),
        None => None,
    }
}

/// The format of diary file names, `2011-05-23.txt`.
#[verifier::allow_in_spec]
pub fn diary_file_format() -> &'static str
    returns
        "[year]-[month]-[day].txt",
{
    "[year]-[month]-[day].txt"
}

/// The format of a plain date, `2011-05-23`.
#[verifier::allow_in_spec]
pub fn date_format() -> &'static str
    returns
        "[year]-[month]-[day]",
{
    "[year]-[month]-[day]"
}

/// The date `n` days before `d`, as `time` computes it.
pub fn date_minus_days(d: &Date, n: i64) -> (r: Option<Date>)
    requires
        i64::MIN <= n * 86400 <= i64::MAX,
    ensures
        r matches Some(x) ==> spec_time_date_minus_days(d@.0, d@.1, d@.2, n as int) == Some(x@) && valid_date(x@.0, x@.1, x@.2),
        r is None ==> match spec_time_date_minus_days(d@.0, d@.1, d@.2, n as int) {
            None => true,
            Some(v) => !valid_date(v.0, v.1, v.2),
        },
{
    match time_date_minus_days(d.year(), d.month(), d.day(), n) {
        Some((y, m, day)) => Date::from_calendar_date(y, m, day),
        None => None,
    }
}

// ---------------------------------------------------------------------------
// Instants
// ---------------------------------------------------------------------------

/// First nanosecond (since the Unix epoch) that `time` can represent:
/// -9999-01-01T00:00:00Z.
pub const MIN_UNIX_NANOS: i128 = -377_705_116_800_000_000_000;

/// Last nanosecond (since the Unix epoch) that `time` can represent:
/// 9999-12-31T23:59:59.999999999Z.
pub const MAX_UNIX_NANOS: i128 = 253_402_300_799_999_999_999;

/// An instant in UTC, counted in nanoseconds since the Unix epoch
/// (`DateTimeWrapper` around `time::OffsetDateTime`).
#[derive(Clone, Copy, PartialEq, Eq, Structural, Debug, Hash, PartialOrd, Ord)]
pub struct DateTimeWrapper {
    unix_nanos: i128,
}

impl View for DateTimeWrapper {
    type V = int;

    closed spec fn view(&self) -> int {
        self.unix_nanos as int
    }
}

/// Nanoseconds in a second.
pub open spec fn nanos_per_second() -> int {
    1_000_000_000
}

/// `time::Duration::whole_seconds` of a duration of `d` nanoseconds: the
/// quotient rounded towards zero.
pub open spec fn whole_seconds(d: int) -> int {
    if d >= 0 {
        d / 1_000_000_000
    } else {
        -((-d) / 1_000_000_000)
    }
}

/// `time::Duration::whole_milliseconds` of a duration of `d` nanoseconds.
pub open spec fn whole_milliseconds(d: int) -> int {
    if d >= 0 {
        d / 1_000_000
    } else {
        -((-d) / 1_000_000)
    }
}

impl DateTimeWrapper {
    #[verifier::type_invariant]
    closed spec fn inv(self) -> bool {
        MIN_UNIX_NANOS <= self.unix_nanos <= MAX_UNIX_NANOS
    }

    /// Two instants are equal exactly when their views are.
    pub proof fn lemma_view_injective(a: DateTimeWrapper, b: DateTimeWrapper)
        ensures
            a@ == b@ ==> a == b,
    {
    }

    /// The instant `nanos` nanoseconds after the Unix epoch, if `time` can
    /// represent it (`OffsetDateTime::from_unix_timestamp_nanos`).
    pub fn from_unix_timestamp_nanos(nanos: i128) -> (r: Option<DateTimeWrapper>)
        ensures
            r is Some <==> MIN_UNIX_NANOS <= nanos <= MAX_UNIX_NANOS,
            r matches Some(t) ==> t@ == nanos,
    {
        if MIN_UNIX_NANOS <= nanos && nanos <= MAX_UNIX_NANOS {
            Some(DateTimeWrapper { unix_nanos: nanos })
        } else {
            None
        }
    }

    /// The first instant of year 0 (`datetime!(0000-01-01 00:00:00 UTC)`).
    pub fn year_zero() -> (r: DateTimeWrapper)
        ensures
            r@ == -62_167_219_200_000_000_000,
    {
        DateTimeWrapper { unix_nanos: -62_167_219_200_000_000_000 }
    }

    pub fn unix_timestamp_nanos(&self) -> (r: i128)
        ensures
            r == self@,
            MIN_UNIX_NANOS <= r <= MAX_UNIX_NANOS,
    {
        proof {
            use_type_invariant(self);
        }
        self.unix_nanos
    }

    /// `(self - other).whole_seconds()`.
    pub fn whole_seconds_since(&self, other: &DateTimeWrapper) -> (r: i64)
        ensures
            r == whole_seconds(self@ - other@),
    {
        let d = self.unix_timestamp_nanos() - other.unix_timestamp_nanos();
        if d >= 0 {
            (d / 1_000_000_000) as i64
        } else {
            -(((-d) / 1_000_000_000) as i64)
        }
    }

    /// `(self - other).whole_milliseconds()`.
    pub fn whole_milliseconds_since(&self, other: &DateTimeWrapper) -> (r: i128)
        ensures
            r == whole_milliseconds(self@ - other@),
    {
        let d = self.unix_timestamp_nanos() - other.unix_timestamp_nanos();
        if d >= 0 {
            d / 1_000_000
        } else {
            -((-d) / 1_000_000)
        }
    }

    /// Whether `self` comes strictly before `other`.
    pub fn is_before(&self, other: &DateTimeWrapper) -> (r: bool)
        ensures
            r == (self@ < other@),
    {
        self.unix_timestamp_nanos() < other.unix_timestamp_nanos()
    }
}

/// What `time::OffsetDateTime` renders for the UTC instant `nanos` with the
/// format description `format` (empty where formatting fails).
pub uninterp spec fn spec_time_format_datetime(nanos: int, format: Seq<char>) -> Seq<char>;

/// What `time::OffsetDateTime`'s `Display` renders for the UTC instant
/// `nanos`.
pub uninterp spec fn spec_time_display_datetime(nanos: int) -> Seq<char>;

/// `OffsetDateTime::format` of the instant with the format description
/// `format`, or the empty string where that fails (as the diary does with
/// `unwrap_or_else(|_| String::new())`). The contract only names the text.
#[verifier::external_body]
fn time_format_datetime(nanos: i128, format: &str) -> (r: String)
    requires
        MIN_UNIX_NANOS <= nanos <= MAX_UNIX_NANOS,
    ensures
        r@ == spec_time_format_datetime(nanos as int, format@),
{
    let Ok(dt) = time::OffsetDateTime::from_unix_timestamp_nanos(nanos) else { return String::new() };
    time::format_description::parse(format)
        .ok()
        .and_then(|d| dt.format(&d).ok())
        .unwrap_or_default()
}

/// `OffsetDateTime`'s `Display` for the UTC instant. The contract only names
/// the text.
#[verifier::external_body]
fn time_display_datetime(nanos: i128) -> (r: String)
    requires
        MIN_UNIX_NANOS <= nanos <= MAX_UNIX_NANOS,
    ensures
        r@ == spec_time_display_datetime(nanos as int),
{
    match time::OffsetDateTime::from_unix_timestamp_nanos(nanos) {
        Ok(dt) => format!("{dt}"),
        Err(_) => String::new(),
    }
}

/// The format the diary shows cache entries of a text search in.
#[verifier::allow_in_spec]
pub fn search_datetime_format() -> &'static str
    returns
        "[year]-[month]-[day]T[hour]:[minute]:[second]Z",
{
    "[year]-[month]-[day]T[hour]:[minute]:[second]Z"
}

/// The format the diary lists conflict timestamps in.
#[verifier::allow_in_spec]
pub fn conflict_datetime_format() -> &'static str
    returns
        "[year]-[month]-[day]T[hour]:[minute]:[second].[subsecond]Z",
{
    "[year]-[month]-[day]T[hour]:[minute]:[second].[subsecond]Z"
}

/// The instant rendered with a `time` format description.
pub fn format_datetime(t: &DateTimeWrapper, format: &str) -> (r: String)
    ensures
        r@ == spec_time_format_datetime(t@, format@),
{
    time_format_datetime(t.unix_timestamp_nanos(), format)
}

/// The instant as `time` displays it, e.g. `2022-01-01 1:02:03.12341 +00:00:00`.
pub fn display_datetime(t: &DateTimeWrapper) -> (r: String)
    ensures
        r@ == spec_time_display_datetime(t@),
{
    time_display_datetime(t.unix_timestamp_nanos())
}

} // verus!
