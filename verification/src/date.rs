//! Calendar days and instants.
use vstd::prelude::*;

use chrono::Datelike;

use crate::text::{
    blank_text, digits_value, law_trimmed_of_blanks, lemma_padded, lemma_wide, padded, padded_of,
    trim_of, trimmed,
};

verus! {

/// The first year of the calendar.
pub const MIN_YEAR: i32 = -262143;

/// The last year of the calendar.
pub const MAX_YEAR: i32 = 262142;

pub open spec fn leap(year: int) -> bool {
    year % 4 == 0 && (year % 100 != 0 || year % 400 == 0)
}

/// The number of days in a month of the proleptic Gregorian calendar.
pub open spec fn month_days(year: int, month: int) -> int {
    if month == 2 {
        if leap(year) {
            29
        } else {
            28
        }
    } else if month == 4 || month == 6 || month == 9 || month == 11 {
        30
    } else {
        31
    }
}

/// Year, month and day of a calendar day.
pub struct DateView {
    pub year: int,
    pub month: int,
    pub day: int,
}

impl DateView {
    pub open spec fn valid(self) -> bool {
        &&& MIN_YEAR <= self.year <= MAX_YEAR
        &&& 1 <= self.month <= 12
        &&& 1 <= self.day <= month_days(self.year, self.month)
    }

    /// The day after this one, and this one itself at the end of the calendar.
    pub open spec fn next(self) -> DateView {
        if self.day < month_days(self.year, self.month) {
            DateView { day: self.day + 1, ..self }
        } else if self.month < 12 {
            DateView { month: self.month + 1, day: 1, ..self }
        } else if self.year < MAX_YEAR {
            DateView { year: self.year + 1, month: 1, day: 1 }
        } else {
            self
        }
    }

    /// Whether this day comes before `other`.
    pub open spec fn before(self, other: DateView) -> bool {
        ||| self.year < other.year
        ||| self.year == other.year && self.month < other.month
        ||| self.year == other.year && self.month == other.month && self.day < other.day
    }
}

/// A day of the proleptic Gregorian calendar.
#[derive(Clone, Copy, Debug, PartialEq, Eq, Structural)]
pub struct Date {
    year: i32,
    month: u32,
    day: u32,
}

impl View for Date {
    type V = DateView;

    closed spec fn view(&self) -> DateView {
        DateView { year: self.year as int, month: self.month as int, day: self.day as int }
    }
}

impl DeepView for Date {
    type V = DateView;

    open spec fn deep_view(&self) -> DateView {
        self@
    }
}

/// The year in at least four characters, a minus sign counted.
pub open spec fn year_text(year: int) -> Seq<char> {
    if year < 0 {
        seq!['-'] + padded((-year) as nat, 3)
    } else {
        padded(year as nat, 4)
    }
}

/// The year as a calendar day shows it: four digits, and from outside
/// 0 to 9999 with a sign.
pub open spec fn signed_year_text(year: int) -> Seq<char> {
    if 0 <= year <= 9999 {
        padded(year as nat, 4)
    } else if year < 0 {
        seq!['-'] + padded((-year) as nat, 4)
    } else {
        seq!['+'] + padded(year as nat, 4)
    }
}

/// Month and day in two digits each, after dashes.
pub open spec fn month_day_text(date: DateView) -> Seq<char> {
    seq!['-'] + padded(date.month as nat, 2) + seq!['-'] + padded(date.day as nat, 2)
}

/// The day as `YYYY-MM-DD`.
pub open spec fn date_text(date: DateView) -> Seq<char> {
    signed_year_text(date.year) + month_day_text(date)
}

/// The instant at which the day begins in UTC, as RFC 3339 writes it.
pub open spec fn midnight_text(date: DateView) -> Seq<char> {
    year_text(date.year) + month_day_text(date) + "T00:00:00Z"@
}

impl Date {
    #[verifier::type_invariant]
    closed spec fn inv(self) -> bool {
        self@.valid()
    }

    pub fn from_ymd(year: i32, month: u32, day: u32) -> (r: Option<Date>)
        ensures
            ({
                let date = DateView { year: year as int, month: month as int, day: day as int };
                &&& r is Some <==> date.valid()
                &&& r matches Some(d) ==> d@ == date
            }),
    {
        if year < MIN_YEAR || MAX_YEAR < year || month < 1 || 12 < month || day < 1 {
            return None;
        }
        let last: u32 = if month == 2 {
            if year % 4 == 0 && (year % 100 != 0 || year % 400 == 0) {
                29
            } else {
                28
            }
        } else if month == 4 || month == 6 || month == 9 || month == 11 {
            30
        } else {
            31
        };
        if day > last {
            return None;
        }
        Some(Date { year, month, day })
    }

    pub fn year(self) -> (r: i32)
        ensures
            r == self@.year,
    {
        self.year
    }

    pub fn month(self) -> (r: u32)
        ensures
            r == self@.month,
    {
        self.month
    }

    pub fn day(self) -> (r: u32)
        ensures
            r == self@.day,
    {
        self.day
    }

    /// The day after; the last day of the calendar stays.
    pub fn next(self) -> (r: Date)
        ensures
            r@ == self@.next(),
    {
        proof {
            use_type_invariant(self);
        }
        if let Some(date) = Date::from_ymd(self.year, self.month, self.day + 1) {
            return date;
        }
        if self.month < 12 {
            return Date { year: self.year, month: self.month + 1, day: 1 };
        }
        if self.year < MAX_YEAR {
            return Date { year: self.year + 1, month: 1, day: 1 };
        }
        self
    }

    /// Whether this is the same day as `other`.
    pub fn is(self, other: Date) -> (r: bool)
        ensures
            r == (self@ == other@),
    {
        self.year == other.year && self.month == other.month && self.day == other.day
    }

    /// Whether this day comes before `other`.
    pub fn is_before(self, other: Date) -> (r: bool)
        ensures
            r == self@.before(other@),
    {
        self.year < other.year || (self.year == other.year && (self.month < other.month || (
        self.month == other.month && self.day < other.day)))
    }

    fn month_day(self) -> (r: String)
        ensures
            r@ == month_day_text(self@),
    {
        let mut out = String::new();
        out.push('-');
        out.append(&padded_of(self.month as u64, 2));
        out.push('-');
        out.append(&padded_of(self.day as u64, 2));
        proof {
            assert(out@ =~= month_day_text(self@));
        }
        out
    }

    /// The day as `YYYY-MM-DD`.
    pub fn to_text(self) -> (r: String)
        ensures
            r@ == date_text(self@),
    {
        proof {
            use_type_invariant(self);
        }
        let mut out = String::new();
        if self.year < 0 {
            out.push('-');
            out.append(&padded_of((-self.year) as u64, 4));
        } else {
            if self.year > 9999 {
                out.push('+');
            }
            out.append(&padded_of(self.year as u64, 4));
        }
        proof {
            assert(out@ =~= signed_year_text(self@.year));
        }
        out.append(&self.month_day());
        out
    }

    /// The instant at which the day begins in UTC, as RFC 3339 writes it.
    pub fn utc_midnight(self) -> (r: String)
        ensures
            r@ == midnight_text(self@),
    {
        proof {
            use_type_invariant(self);
        }
        let mut out = String::new();
        if self.year < 0 {
            out.push('-');
            out.append(&padded_of((-self.year) as u64, 3));
        } else {
            out.append(&padded_of(self.year as u64, 4));
        }
        proof {
            assert(out@ =~= year_text(self@.year));
        }
        out.append(&self.month_day());
        out.append("T00:00:00Z");
        out
    }
}

/// An instant, with the offset it was written in and the calendar day it
/// falls on there.
#[derive(Clone, Copy, Debug, PartialEq, Eq, Structural)]
pub struct DateTime {
    /// Whole seconds since 1970-01-01T00:00:00Z.
    pub seconds: i64,
    /// Nanoseconds into the second.
    pub nanos: u32,
    /// Offset from UTC in seconds.
    pub offset: i32,
    /// The calendar day at that offset.
    pub date: Date,
}

impl DeepView for DateTime {
    type V = DateTime;

    open spec fn deep_view(&self) -> DateTime {
        *self
    }
}

impl DateTime {
    /// Whether this instant comes before `other`.
    pub open spec fn earlier(self, other: DateTime) -> bool {
        self.seconds < other.seconds || (self.seconds == other.seconds && self.nanos < other.nanos)
    }
}

/// What [`chrono::DateTime::parse_from_rfc2822`] reads in a text, `None`
/// where it reports an error.
pub uninterp spec fn rfc2822(text: Seq<char>) -> Option<DateTime>;

/// What [`chrono::DateTime::parse_from_rfc3339`] reads in a text, `None`
/// where it reports an error.
pub uninterp spec fn rfc3339(text: Seq<char>) -> Option<DateTime>;

/// The fields of a `chrono` instant: its timestamp, its offset and its
/// local calendar day.
#[verifier::external_body]
fn read_rfc2822(text: &str) -> (r: Option<DateTime>)
    ensures
        r == rfc2822(text@),
{
    let at = chrono::DateTime::parse_from_rfc2822(text).ok()?;
    let day = at.date_naive();
    Some(DateTime {
        seconds: at.timestamp(),
        nanos: at.timestamp_subsec_nanos(),
        offset: at.offset().local_minus_utc(),
        date: Date { year: day.year(), month: day.month(), day: day.day() },
    })
}

/// The same for [`chrono::DateTime::parse_from_rfc3339`].
#[verifier::external_body]
fn read_rfc3339(text: &str) -> (r: Option<DateTime>)
    ensures
        r == rfc3339(text@),
{
    let at = chrono::DateTime::parse_from_rfc3339(text).ok()?;
    let day = at.date_naive();
    Some(DateTime {
        seconds: at.timestamp(),
        nanos: at.timestamp_subsec_nanos(),
        offset: at.offset().local_minus_utc(),
        date: Date { year: day.year(), month: day.month(), day: day.day() },
    })
}

/// The instant in a `Date:` header value: white space around it does not
/// count, and an empty value has none.
pub open spec fn header_date(raw: Seq<char>) -> Option<DateTime> {
    if trimmed(raw).len() == 0 {
        None
    } else {
        rfc2822(trimmed(raw))
    }
}

/// The instant in an RFC 3339 value, read the same way.
pub open spec fn sent_date(raw: Seq<char>) -> Option<DateTime> {
    if trimmed(raw).len() == 0 {
        None
    } else {
        rfc3339(trimmed(raw))
    }
}

/// Reads a `Date:` header value.
pub fn parse_rfc2822_date(raw: &str) -> (r: Option<DateTime>)
    ensures
        r == header_date(raw@),
{
    let text = trim_of(raw);
    if text.as_str().is_empty() {
        return None;
    }
    read_rfc2822(&text)
}

/// Reads an RFC 3339 value.
pub fn parse_rfc3339(raw: &str) -> (r: Option<DateTime>)
    ensures
        r == sent_date(raw@),
{
    let text = trim_of(raw);
    if text.as_str().is_empty() {
        return None;
    }
    read_rfc3339(&text)
}

/// The next day comes later, unless the calendar ends; and no day lies
/// between the two.
pub proof fn law_next_day_is_adjacent(date: DateView, other: DateView)
    requires
        date.valid(),
        other.valid(),
    ensures
        date.next().valid(),
        date.next() != date ==> date.before(date.next()),
        date.next() == date ==> date.year == MAX_YEAR && date.month == 12 && date.day == 31,
        !(date.before(other) && other.before(date.next())),
{
}

/// Days are in a line: of two different ones exactly one comes before the
/// other, none before itself, and before is passed on.
pub proof fn law_days_are_ordered(a: DateView, b: DateView, c: DateView)
    ensures
        !a.before(a),
        a != b ==> (a.before(b) <==> !b.before(a)),
        a.before(b) && b.before(c) ==> a.before(c),
{
}

/// How many days of the calendar come before a day.
pub open spec fn days_before(date: DateView) -> int
    decreases date.year - MIN_YEAR, date.month, date.day,
{
    if date.day > 1 {
        days_before(DateView { day: date.day - 1, ..date }) + 1
    } else if date.month > 1 {
        days_before(
            DateView { month: date.month - 1, day: month_days(date.year, date.month - 1), ..date },
        ) + 1
    } else if date.year > MIN_YEAR {
        days_before(DateView { year: date.year - 1, month: 12, day: 31 }) + 1
    } else {
        0
    }
}

/// The next day is one day later, by the count of days, until the calendar
/// ends.
pub proof fn law_next_day_counts_one(date: DateView)
    requires
        date.valid(),
        date.next() != date,
    ensures
        days_before(date.next()) == days_before(date) + 1,
{
    reveal_with_fuel(days_before, 2);
}

/// A year has 365 days, and 366 exactly where it is divisible by 4 but, of
/// the centuries, only by 400.
pub proof fn law_year_length(year: int)
    ensures
        month_days(year, 1) + month_days(year, 2) + month_days(year, 3) + month_days(year, 4)
            + month_days(year, 5) + month_days(year, 6) + month_days(year, 7) + month_days(year, 8)
            + month_days(year, 9) + month_days(year, 10) + month_days(year, 11) + month_days(year, 12)
            == if year % 400 == 0 || (year % 4 == 0 && year % 100 != 0) {
            366int
        } else {
            365int
        },
        forall|month: int|
            1 <= month <= 12 && month != 2 ==> 30 <= #[trigger] month_days(year, month) <= 31,
{
}

/// White space around a date does not matter, and blank text has no date.
pub proof fn law_blanks_around_a_date_do_not_matter(before: Seq<char>, raw: Seq<char>, after: Seq<char>)
    requires
        blank_text(before),
        blank_text(after),
    ensures
        header_date(before + raw + after) == header_date(raw),
        sent_date(before + raw + after) == sent_date(raw),
        header_date(before) is None,
        sent_date(before) is None,
        raw.len() > 0 && trimmed(raw) == raw ==> header_date(raw) == rfc2822(raw) && sent_date(raw)
            == rfc3339(raw),
{
    law_trimmed_of_blanks(before, raw, after);
    law_trimmed_of_blanks(before, seq![], seq![]);
    assert(before + seq![] + seq![] =~= before);
}

/// A day of the years 0 to 9999 is written in ten characters: the year, the
/// month and the day can be read back from their places.
pub proof fn law_day_reads_back(date: DateView)
    requires
        date.valid(),
        0 <= date.year <= 9999,
    ensures
        date_text(date).len() == 10,
        digits_value(date_text(date).subrange(0, 4)) == date.year,
        date_text(date)[4] == '-',
        digits_value(date_text(date).subrange(5, 7)) == date.month,
        date_text(date)[7] == '-',
        digits_value(date_text(date).subrange(8, 10)) == date.day,
        midnight_text(date) == date_text(date) + "T00:00:00Z"@,
{
    lemma_padded(date.year as nat, 4);
    lemma_padded(date.month as nat, 2);
    lemma_padded(date.day as nat, 2);
    let text = date_text(date);
    assert(text.subrange(0, 4) =~= padded(date.year as nat, 4));
    assert(text.subrange(5, 7) =~= padded(date.month as nat, 2));
    assert(text.subrange(8, 10) =~= padded(date.day as nat, 2));
}

/// April, June, September and November have thirty days, February twenty-eight
/// or, in every fourth year but those of three centuries in four, twenty-nine;
/// the others have thirty-one.
pub proof fn law_month_lengths(year: int, month: int)
    requires
        1 <= month <= 12,
    ensures
        month_days(year, month) == 30 <==> month == 4 || month == 6 || month == 9 || month == 11,
        month_days(year, month) == 31 <==> month != 2 && month != 4 && month != 6 && month != 9 && month
            != 11,
        month_days(year, 2) == 28 || month_days(year, 2) == 29,
        month_days(year, 2) == 29 <==> year % 4 == 0 && (year % 100 == 0 ==> year % 400 == 0),
{
}

/// A day outside the years 0 to 9999 has its year behind a sign; it can be read
/// back as well.
pub proof fn law_far_day_reads_back(date: DateView)
    requires
        date.valid(),
        !(0 <= date.year <= 9999),
    ensures
        ({
            let text = date_text(date);
            let n = text.len() - 6;
            &&& n >= 5
            &&& text[0] == if date.year < 0 {
                '-'
            } else {
                '+'
            }
            &&& digits_value(text.subrange(1, n)) == if date.year < 0 {
                -date.year
            } else {
                date.year
            }
            &&& text[n] == '-' && text[n + 3] == '-'
            &&& digits_value(text.subrange(n + 1, n + 3)) == date.month
            &&& digits_value(text.subrange(n + 4, n + 6)) == date.day
        }),
{
    let text = date_text(date);
    let year = if date.year < 0 {
        (-date.year) as nat
    } else {
        date.year as nat
    };
    lemma_wide(year, 4);
    lemma_padded(date.month as nat, 2);
    lemma_padded(date.day as nat, 2);
    let digits = padded(year, 4);
    let n = text.len() - 6;
    assert(text.subrange(1, n) =~= digits);
    assert(text.subrange(n + 1, n + 3) =~= padded(date.month as nat, 2));
    assert(text.subrange(n + 4, n + 6) =~= padded(date.day as nat, 2));
}

/// The instant at which a day of another year begins is written with at least
/// four characters for the year, a minus sign counted.
pub proof fn law_far_midnight_reads_back(date: DateView)
    requires
        date.valid(),
        !(0 <= date.year <= 9999),
    ensures
        ({
            let text = midnight_text(date);
            let n = text.len() - 16;
            &&& n >= 4
            &&& date.year < 0 ==> text[0] == '-' && digits_value(text.subrange(1, n)) == -date.year
            &&& date.year > 9999 ==> digits_value(text.subrange(0, n)) == date.year
            &&& text.skip(n) == date_text(date).skip(date_text(date).len() - 6) + "T00:00:00Z"@
        }),
{
    reveal_strlit("T00:00:00Z");
    let text = midnight_text(date);
    lemma_padded(date.month as nat, 2);
    lemma_padded(date.day as nat, 2);
    let far = date_text(date);
    let tail = month_day_text(date);
    let n = text.len() - 16;
    assert(far.skip(far.len() - 6) =~= tail);
    assert(text.skip(n) =~= tail + "T00:00:00Z"@);
    if date.year < 0 {
        lemma_wide((-date.year) as nat, 3);
        assert(text.subrange(1, n) =~= padded((-date.year) as nat, 3));
    } else {
        lemma_wide(date.year as nat, 4);
        assert(text.subrange(0, n) =~= padded(date.year as nat, 4));
    }
}

} // verus!
