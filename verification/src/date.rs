//! Calendar dates and times of day, held as plain numbers. The calendar
//! arithmetic itself is chrono's, reached through the small wrappers below.

use chrono::{Datelike, Timelike};
use vstd::prelude::*;

use crate::strs::{digit_char, digits, padded, push_char, push_str, zero_padded};

verus! {

/// The first year chrono can represent.
pub open spec fn min_year() -> int {
    -262143
}

/// The last year chrono can represent.
pub open spec fn max_year() -> int {
    262142
}

pub open spec fn is_leap(y: int) -> bool {
    (y % 4 == 0 && y % 100 != 0) || y % 400 == 0
}

pub open spec fn month_length(y: int, m: int) -> int {
    if m == 2 {
        if is_leap(y) { 29 } else { 28 }
    } else if m == 4 || m == 6 || m == 9 || m == 11 {
        30
    } else {
        31
    }
}

/// A day of the proleptic Gregorian calendar inside chrono's range.
pub open spec fn valid_ymd(y: int, m: int, d: int) -> bool {
    &&& min_year() <= y <= max_year()
    &&& 1 <= m <= 12
    &&& 1 <= d <= month_length(y, m)
}

pub open spec fn days_before_year(y: int) -> int {
    let p = y - 1;
    365 * p + p / 4 - p / 100 + p / 400
}

pub open spec fn days_before_month(y: int, m: int) -> int {
    let base: int = if m <= 1 {
        0
    } else if m == 2 {
        31
    } else if m == 3 {
        59
    } else if m == 4 {
        90
    } else if m == 5 {
        120
    } else if m == 6 {
        151
    } else if m == 7 {
        181
    } else if m == 8 {
        212
    } else if m == 9 {
        243
    } else if m == 10 {
        273
    } else if m == 11 {
        304
    } else {
        334
    };
    base + if m > 2 && is_leap(y) { 1int } else { 0int }
}

/// Days since the start of the calendar: the 1st of January of year 1 is day 1.
pub open spec fn day_number(y: int, m: int, d: int) -> int {
    days_before_year(y) + days_before_month(y, m) + d
}

/// The day number of the last date chrono can represent.
pub open spec fn last_day_number() -> int {
    day_number(max_year(), 12, 31)
}

/// 0 for Monday up to 6 for Sunday. The 1st of January of year 1 was a Monday.
pub open spec fn weekday_of_number(n: int) -> int {
    (n - 1) % 7
}

/// A calendar date. Only ever built through `Date::from_ymd` or the calendar
/// arithmetic below, so `wf` holds of every one a caller can get hold of.
#[derive(Debug, Clone, Copy, PartialEq, Eq, Structural)]
pub struct Date {
    pub year: i32,
    pub month: u32,
    pub day: u32,
}

impl Date {
    pub open spec fn wf(self) -> bool {
        valid_ymd(self.year as int, self.month as int, self.day as int)
    }

    pub open spec fn number(self) -> int {
        day_number(self.year as int, self.month as int, self.day as int)
    }

    pub open spec fn weekday_spec(self) -> int {
        weekday_of_number(self.number())
    }

    /// Strictly before, as a calendar reads.
    pub open spec fn before(self, other: Date) -> bool {
        ||| self.year < other.year
        ||| (self.year == other.year && self.month < other.month)
        ||| (self.year == other.year && self.month == other.month && self.day < other.day)
    }

    /// `Some` exactly when the calendar has that day.
    pub fn from_ymd(year: i32, month: u32, day: u32) -> (r: Option<Date>)
        ensures
            r is Some <==> valid_ymd(year as int, month as int, day as int),
            r matches Some(d) ==> d.year == year && d.month == month && d.day == day,
    {
        if calendar_has(year, month, day) {
            Some(Date { year, month, day })
        } else {
            None
        }
    }

    /// `n` days later, or `None` past the end of the calendar.
    pub fn add_days(self, n: u64) -> (r: Option<Date>)
        requires
            self.wf(),
        ensures
            r is Some <==> self.number() + n <= last_day_number(),
            r matches Some(d) ==> d.wf() && d.number() == self.number() + n,
    {
        match shift_days(self.year, self.month, self.day, n) {
            Some((y, m, d)) => Some(Date { year: y, month: m, day: d }),
            None => None,
        }
    }

    /// 0 for Monday up to 6 for Sunday.
    pub fn weekday(self) -> (r: u32)
        requires
            self.wf(),
        ensures
            r == self.weekday_spec(),
            r < 7,
    {
        weekday_index(self.year, self.month, self.day)
    }

    /// How many days `self` is after `other`; negative when it is before.
    pub fn days_since(self, other: Date) -> (r: i64)
        requires
            self.wf(),
            other.wf(),
        ensures
            r == self.number() - other.number(),
    {
        day_difference(self.year, self.month, self.day, other.year, other.month, other.day)
    }

    /// Strictly before, as a calendar reads.
    pub fn is_before(self, other: Date) -> (r: bool)
        ensures
            r == self.before(other),
    {
        self.year < other.year || (self.year == other.year && self.month < other.month) || (
        self.year == other.year && self.month == other.month && self.day < other.day)
    }

    pub fn same_day(self, other: Date) -> (r: bool)
        ensures
            r == (self == other),
    {
        self.year == other.year && self.month == other.month && self.day == other.day
    }
}

/// A time of day to the minute.
#[derive(Debug, Clone, Copy, PartialEq, Eq, Structural)]
pub struct Time {
    pub hour: u32,
    pub minute: u32,
}

impl Time {
    pub open spec fn wf(self) -> bool {
        self.hour < 24 && self.minute < 60
    }

    pub fn from_hm(hour: u32, minute: u32) -> (r: Option<Time>)
        ensures
            r is Some <==> hour < 24 && minute < 60,
            r matches Some(t) ==> t.hour == hour && t.minute == minute,
    {
        if hour < 24 && minute < 60 {
            Some(Time { hour, minute })
        } else {
            None
        }
    }

    /// Earlier in the day, as a clock reads.
    pub open spec fn before(self, other: Time) -> bool {
        self.hour < other.hour || (self.hour == other.hour && self.minute < other.minute)
    }
}

pub open spec fn is_digit(c: char) -> bool {
    '0' <= c <= '9'
}

/// The number a run of decimal digits reads as.
pub open spec fn reading(s: Seq<char>) -> int
    decreases s.len(),
{
    if s.len() == 0 {
        0
    } else {
        reading(s.drop_last()) * 10 + (s.last() as int - '0' as int)
    }
}

/// `DDDD-DD-DD`: four digits, a dash, two digits, a dash, two digits.
pub open spec fn iso_shape(s: Seq<char>) -> bool {
    &&& s.len() == 10
    &&& s[4] == '-'
    &&& s[7] == '-'
    &&& forall|i: int| 0 <= i < 10 && i != 4 && i != 7 ==> is_digit(#[trigger] s[i])
}

/// The year, month and day a text of that shape spells.
pub open spec fn iso_fields(s: Seq<char>) -> (int, int, int) {
    (reading(s.take(4)), reading(s.subrange(5, 7)), reading(s.subrange(8, 10)))
}

/// What that shape parses to: the day it names, when the calendar has it.
pub open spec fn shaped_parse(s: Seq<char>) -> Option<(i32, u32, u32)> {
    let (y, m, d) = iso_fields(s);
    if valid_ymd(y, m, d) {
        Some((y as i32, m as u32, d as u32))
    } else {
        None
    }
}

/// `DD:DD`: two digits, a colon, two digits.
pub open spec fn clock_shape(s: Seq<char>) -> bool {
    &&& s.len() == 5
    &&& s[2] == ':'
    &&& forall|i: int| 0 <= i < 5 && i != 2 ==> is_digit(#[trigger] s[i])
}

/// What that shape parses to: the time it spells, when the clock has it.
pub open spec fn shaped_clock(s: Seq<char>) -> Option<(u32, u32)> {
    let h = reading(s.take(2));
    let m = reading(s.subrange(3, 5));
    if h < 24 && m < 60 {
        Some((h as u32, m as u32))
    } else {
        None
    }
}

/// What `NaiveDate::parse_from_str(s, "%Y-%m-%d")` makes of `s`, as
/// (year, month, day).
pub uninterp spec fn iso_date_parse(s: Seq<char>) -> Option<(i32, u32, u32)>;

/// What `NaiveTime::parse_from_str(s, "%H:%M")` makes of `s`, as
/// (hour, minute).
pub uninterp spec fn clock_parse(s: Seq<char>) -> Option<(u32, u32)>;

/// `chrono::NaiveDate::from_ymd_opt`: whether the calendar has this day.
/// Claimed: it is `Some` exactly for the days of the proleptic Gregorian
/// calendar in chrono's year range, which is what chrono documents.
#[verifier::external_body]
fn calendar_has(y: i32, m: u32, d: u32) -> (r: bool)
    ensures
        r == valid_ymd(y as int, m as int, d as int),
{
    chrono::NaiveDate::from_ymd_opt(y, m, d).is_some()
}

/// `chrono::NaiveDate::checked_add_days`. Claimed: the date `n` days later,
/// and `None` exactly when that would be past chrono's last date.
#[verifier::external_body]
fn shift_days(y: i32, m: u32, d: u32, n: u64) -> (r: Option<(i32, u32, u32)>)
    requires
        valid_ymd(y as int, m as int, d as int),
    ensures
        r is Some <==> day_number(y as int, m as int, d as int) + n <= last_day_number(),
        r matches Some((a, b, c)) ==> valid_ymd(a as int, b as int, c as int) && day_number(
            a as int,
            b as int,
            c as int,
        ) == day_number(y as int, m as int, d as int) + n,
{
    let date = chrono::NaiveDate::from_ymd_opt(y, m, d).unwrap();
    date.checked_add_days(chrono::Days::new(n)).map(|r| (r.year(), r.month(), r.day()))
}

/// `chrono::Datelike::weekday`, told apart by variant. Claimed: Monday is 0
/// and the days run on from the Monday that was the 1st of January of year 1.
#[verifier::external_body]
fn weekday_index(y: i32, m: u32, d: u32) -> (r: u32)
    requires
        valid_ymd(y as int, m as int, d as int),
    ensures
        r == weekday_of_number(day_number(y as int, m as int, d as int)),
{
    match chrono::NaiveDate::from_ymd_opt(y, m, d).unwrap().weekday() {
        chrono::Weekday::Mon => 0,
        chrono::Weekday::Tue => 1,
        chrono::Weekday::Wed => 2,
        chrono::Weekday::Thu => 3,
        chrono::Weekday::Fri => 4,
        chrono::Weekday::Sat => 5,
        chrono::Weekday::Sun => 6,
    }
}

/// `chrono::NaiveDate::signed_duration_since`, in whole days. Claimed: the
/// difference of the two day numbers.
#[verifier::external_body]
fn day_difference(y1: i32, m1: u32, d1: u32, y2: i32, m2: u32, d2: u32) -> (r: i64)
    requires
        valid_ymd(y1 as int, m1 as int, d1 as int),
        valid_ymd(y2 as int, m2 as int, d2 as int),
    ensures
        r == day_number(y1 as int, m1 as int, d1 as int) - day_number(
            y2 as int,
            m2 as int,
            d2 as int,
        ),
{
    let a = chrono::NaiveDate::from_ymd_opt(y1, m1, d1).unwrap();
    let b = chrono::NaiveDate::from_ymd_opt(y2, m2, d2).unwrap();
    a.signed_duration_since(b).num_days()
}

/// `chrono::NaiveDate::parse_from_str` with `%Y-%m-%d`. Claimed: the result is
/// a function of the text alone, and what it gives back is a real date; and
/// a text of four digits, a dash, two digits, a dash and two digits gives
/// the day it spells when the calendar has that day, and nothing when it
/// does not. What other texts give (signs, longer years, spaces) is not
/// stated here.
#[verifier::external_body]
pub(crate) fn parse_iso_date(s: &str) -> (r: Option<(i32, u32, u32)>)
    ensures
        r == iso_date_parse(s@),
        r matches Some((y, m, d)) ==> valid_ymd(y as int, m as int, d as int),
        iso_shape(s@) ==> r == shaped_parse(s@),
{
    chrono::NaiveDate::parse_from_str(s, "%Y-%m-%d").ok().map(|d| (d.year(), d.month(), d.day()))
}

/// `chrono::NaiveTime::parse_from_str` with `%H:%M`. Claimed: the result is a
/// function of the text alone, and a time it gives back is on the clock;
/// and a text of two digits, a colon and two digits gives the time it
/// spells when the hour is under 24 and the minute under 60, and nothing
/// otherwise. What other texts give (one-digit hours, spaces) is not stated
/// here.
#[verifier::external_body]
pub(crate) fn parse_clock(s: &str) -> (r: Option<(u32, u32)>)
    ensures
        r == clock_parse(s@),
        r matches Some((h, m)) ==> h < 24 && m < 60,
        clock_shape(s@) ==> r == shaped_clock(s@),
{
    chrono::NaiveTime::parse_from_str(s, "%H:%M").ok().map(|t| (t.hour(), t.minute()))
}


/// `%Y` as chrono writes it: four digits, zero-padded, inside 0..=9999, and a
/// sign in front of anything outside it.
pub open spec fn year_text(y: int) -> Seq<char> {
    if 0 <= y <= 9999 {
        padded(y as nat, 4)
    } else if y > 9999 {
        seq!['+'] + digits(y as nat)
    } else {
        seq!['-'] + padded((-y) as nat, 4)
    }
}

/// `%Y-%m-%d`.
pub open spec fn iso_text(d: Date) -> Seq<char> {
    year_text(d.year as int) + seq!['-'] + padded(d.month as nat, 2) + seq!['-'] + padded(
        d.day as nat,
        2,
    )
}

/// `%Y%m%d`.
pub open spec fn compact_text(d: Date) -> Seq<char> {
    year_text(d.year as int) + padded(d.month as nat, 2) + padded(d.day as nat, 2)
}

/// `%H:%M`.
pub open spec fn clock_text(t: Time) -> Seq<char> {
    padded(t.hour as nat, 2) + seq![':'] + padded(t.minute as nat, 2)
}

/// `%A`: the weekday's English name, Monday first.
pub open spec fn weekday_name(w: int) -> Seq<char> {
    if w == 0 {
        seq!['M', 'o', 'n', 'd', 'a', 'y']
    } else if w == 1 {
        seq!['T', 'u', 'e', 's', 'd', 'a', 'y']
    } else if w == 2 {
        seq!['W', 'e', 'd', 'n', 'e', 's', 'd', 'a', 'y']
    } else if w == 3 {
        seq!['T', 'h', 'u', 'r', 's', 'd', 'a', 'y']
    } else if w == 4 {
        seq!['F', 'r', 'i', 'd', 'a', 'y']
    } else if w == 5 {
        seq!['S', 'a', 't', 'u', 'r', 'd', 'a', 'y']
    } else {
        seq!['S', 'u', 'n', 'd', 'a', 'y']
    }
}

/// `%a`: the weekday's name cut to three letters.
pub open spec fn weekday_short(w: int) -> Seq<char> {
    weekday_name(w).take(3)
}

/// `%b`: the month's English name cut to three letters.
pub open spec fn month_short(m: int) -> Seq<char> {
    if m == 1 {
        seq!['J', 'a', 'n']
    } else if m == 2 {
        seq!['F', 'e', 'b']
    } else if m == 3 {
        seq!['M', 'a', 'r']
    } else if m == 4 {
        seq!['A', 'p', 'r']
    } else if m == 5 {
        seq!['M', 'a', 'y']
    } else if m == 6 {
        seq!['J', 'u', 'n']
    } else if m == 7 {
        seq!['J', 'u', 'l']
    } else if m == 8 {
        seq!['A', 'u', 'g']
    } else if m == 9 {
        seq!['S', 'e', 'p']
    } else if m == 10 {
        seq!['O', 'c', 't']
    } else if m == 11 {
        seq!['N', 'o', 'v']
    } else {
        seq!['D', 'e', 'c']
    }
}

/// `%b %-d`: `Aug 8`.
pub open spec fn month_day_text(d: Date) -> Seq<char> {
    month_short(d.month as int) + seq![' '] + digits(d.day as nat)
}

pub fn push_year(s: &mut String, y: i32)
    ensures
        final(s)@ == old(s)@ + year_text(y as int),
{
    if 0 <= y && y <= 9999 {
        let t = zero_padded(y as u64, 4);
        push_str(s, t.as_str());
    } else if y > 9999 {
        let t = crate::strs::decimal(y as u64);
        push_char(s, '+');
        push_str(s, t.as_str());
        assert(old(s)@.push('+') + digits(y as nat) =~= old(s)@ + (seq!['+'] + digits(y as nat)));
    } else {
        let neg: i64 = -(y as i64);
        let t = zero_padded(neg as u64, 4);
        push_char(s, '-');
        push_str(s, t.as_str());
        assert(old(s)@.push('-') + padded(neg as nat, 4) =~= old(s)@ + (seq!['-'] + padded(
            neg as nat,
            4,
        )));
    }
}

fn push_two(s: &mut String, n: u32)
    ensures
        final(s)@ == old(s)@ + padded(n as nat, 2),
{
    let t = zero_padded(n as u64, 2);
    push_str(s, t.as_str());
}

impl Date {
    /// Appends `%Y-%m-%d`.
    pub fn push_iso(self, s: &mut String)
        ensures
            final(s)@ == old(s)@ + iso_text(self),
    {
        push_year(s, self.year);
        push_char(s, '-');
        push_two(s, self.month);
        push_char(s, '-');
        push_two(s, self.day);
        assert(final(s)@ =~= old(s)@ + iso_text(self));
    }

    /// `%Y-%m-%d`.
    pub fn iso(self) -> (r: String)
        ensures
            r@ == iso_text(self),
    {
        let mut s = String::new();
        self.push_iso(&mut s);
        assert(s@ =~= iso_text(self));
        s
    }

    /// Appends `%Y%m%d`.
    pub fn push_compact(self, s: &mut String)
        ensures
            final(s)@ == old(s)@ + compact_text(self),
    {
        push_year(s, self.year);
        push_two(s, self.month);
        push_two(s, self.day);
        assert(final(s)@ =~= old(s)@ + compact_text(self));
    }

    /// `%A`.
    pub fn weekday_word(self) -> (r: &'static str)
        requires
            self.wf(),
        ensures
            r@ == weekday_name(self.weekday_spec()),
    {
        let w = self.weekday();
        proof {
            reveal_strlit("Monday");
            reveal_strlit("Tuesday");
            reveal_strlit("Wednesday");
            reveal_strlit("Thursday");
            reveal_strlit("Friday");
            reveal_strlit("Saturday");
            reveal_strlit("Sunday");
        }
        if w == 0 {
            "Monday"
        } else if w == 1 {
            "Tuesday"
        } else if w == 2 {
            "Wednesday"
        } else if w == 3 {
            "Thursday"
        } else if w == 4 {
            "Friday"
        } else if w == 5 {
            "Saturday"
        } else {
            "Sunday"
        }
    }

    /// `%a`.
    pub fn short_weekday(self) -> (r: &'static str)
        requires
            self.wf(),
        ensures
            r@ == weekday_short(self.weekday_spec()),
    {
        let w = self.weekday();
        proof {
            reveal_strlit("Mon");
            reveal_strlit("Tue");
            reveal_strlit("Wed");
            reveal_strlit("Thu");
            reveal_strlit("Fri");
            reveal_strlit("Sat");
            reveal_strlit("Sun");
            assert(weekday_short(0) =~= "Mon"@);
            assert(weekday_short(1) =~= "Tue"@);
            assert(weekday_short(2) =~= "Wed"@);
            assert(weekday_short(3) =~= "Thu"@);
            assert(weekday_short(4) =~= "Fri"@);
            assert(weekday_short(5) =~= "Sat"@);
            assert(weekday_short(6) =~= "Sun"@);
        }
        if w == 0 {
            "Mon"
        } else if w == 1 {
            "Tue"
        } else if w == 2 {
            "Wed"
        } else if w == 3 {
            "Thu"
        } else if w == 4 {
            "Fri"
        } else if w == 5 {
            "Sat"
        } else {
            "Sun"
        }
    }

    /// `%b %-d`.
    pub fn push_month_day(self, s: &mut String)
        requires
            self.wf(),
        ensures
            final(s)@ == old(s)@ + month_day_text(self),
    {
        let m = self.month;
        let name: &str = if m == 1 {
            "Jan"
        } else if m == 2 {
            "Feb"
        } else if m == 3 {
            "Mar"
        } else if m == 4 {
            "Apr"
        } else if m == 5 {
            "May"
        } else if m == 6 {
            "Jun"
        } else if m == 7 {
            "Jul"
        } else if m == 8 {
            "Aug"
        } else if m == 9 {
            "Sep"
        } else if m == 10 {
            "Oct"
        } else if m == 11 {
            "Nov"
        } else {
            "Dec"
        };
        proof {
            reveal_strlit("Jan");
            reveal_strlit("Feb");
            reveal_strlit("Mar");
            reveal_strlit("Apr");
            reveal_strlit("May");
            reveal_strlit("Jun");
            reveal_strlit("Jul");
            reveal_strlit("Aug");
            reveal_strlit("Sep");
            reveal_strlit("Oct");
            reveal_strlit("Nov");
            reveal_strlit("Dec");
            assert(name@ =~= month_short(m as int));
        }
        push_str(s, name);
        push_char(s, ' ');
        let d = crate::strs::decimal(self.day as u64);
        push_str(s, d.as_str());
        assert(final(s)@ =~= old(s)@ + month_day_text(self));
    }

    /// The date `%Y-%m-%d` names, if it is one.
    pub fn parse_iso(s: &str) -> (r: Option<Date>)
        ensures
            r matches Some(d) ==> d.wf() && iso_date_parse(s@) == Some((d.year, d.month, d.day)),
            r is None ==> iso_date_parse(s@) is None,
            iso_shape(s@) ==> match shaped_parse(s@) {
                Some((y, m, d)) => r == Some(Date { year: y, month: m, day: d }),
                None => r is None,
            },
    {
        match parse_iso_date(s) {
            Some((y, m, d)) => Some(Date { year: y, month: m, day: d }),
            None => None,
        }
    }
}

impl Time {
    /// Appends `%H:%M`.
    pub fn push_clock(self, s: &mut String)
        ensures
            final(s)@ == old(s)@ + clock_text(self),
    {
        push_two(s, self.hour);
        push_char(s, ':');
        push_two(s, self.minute);
        assert(final(s)@ =~= old(s)@ + clock_text(self));
    }

    /// `%H:%M` read back, if it is a time.
    pub fn parse_clock(s: &str) -> (r: Option<Time>)
        ensures
            r matches Some(t) ==> t.wf() && clock_parse(s@) == Some((t.hour, t.minute)),
            r is None ==> clock_parse(s@) is None,
            clock_shape(s@) ==> match shaped_clock(s@) {
                Some((h, m)) => r == Some(Time { hour: h, minute: m }),
                None => r is None,
            },
    {
        match parse_clock(s) {
            Some((h, m)) => Some(Time { hour: h, minute: m }),
            None => None,
        }
    }
}


pub proof fn lemma_digits_len(n: nat)
    ensures
        1 <= digits(n).len(),
        n < 10 ==> digits(n).len() == 1,
        n < 100 ==> digits(n).len() <= 2,
        n < 1000 ==> digits(n).len() <= 3,
        n < 10000 ==> digits(n).len() <= 4,
        n < 100000 ==> digits(n).len() <= 5,
        n < 1000000 ==> digits(n).len() <= 6,
        n < 10000000 ==> digits(n).len() <= 7,
    decreases n,
{
    if n >= 10 {
        lemma_digits_len(n / 10);
    }
}

pub proof fn lemma_padded_len(n: nat, w: nat)
    ensures
        padded(n, w).len() == if digits(n).len() >= w { digits(n).len() } else { w },
    decreases w,
{
    if digits(n).len() >= w || w == 0 {
    } else {
        lemma_padded_len(n, (w - 1) as nat);
    }
}

/// A real date is written in at most thirteen characters.
pub proof fn lemma_iso_len(d: Date)
    requires
        d.wf(),
    ensures
        1 <= iso_text(d).len() <= 13,
{
    lemma_digits_len(d.month as nat);
    lemma_digits_len(d.day as nat);
    lemma_padded_len(d.month as nat, 2);
    lemma_padded_len(d.day as nat, 2);
    if 0 <= d.year <= 9999 {
        lemma_digits_len(d.year as nat);
        lemma_padded_len(d.year as nat, 4);
    } else if d.year > 9999 {
        lemma_digits_len(d.year as nat);
    } else {
        lemma_digits_len((-d.year) as nat);
        lemma_padded_len((-d.year) as nat, 4);
    }
}


proof fn lemma_digit_char(d: nat)
    requires
        d < 10,
    ensures
        is_digit(digit_char(d)),
        digit_char(d) as int - '0' as int == d,
{
}

proof fn lemma_digits_read(n: nat)
    ensures
        forall|i: int| 0 <= i < digits(n).len() ==> is_digit(#[trigger] digits(n)[i]),
        reading(digits(n)) == n,
    decreases n,
{
    if n < 10 {
        lemma_digit_char(n);
        assert(seq![digit_char(n)].drop_last() =~= Seq::<char>::empty());
        assert(reading(Seq::<char>::empty()) == 0);
        assert(reading(seq![digit_char(n)]) == reading(Seq::<char>::empty()) * 10 + (digit_char(n) as int - '0' as int));
    } else {
        lemma_digits_read(n / 10);
        lemma_digit_char(n % 10);
        let p = digits(n / 10);
        assert(digits(n).drop_last() =~= p);
        assert(digits(n).last() == digit_char(n % 10));
        assert(reading(digits(n)) == reading(p) * 10 + (digit_char(n % 10) as int - '0' as int));
        assert((n / 10) * 10 + n % 10 == n);
        assert forall|i: int| 0 <= i < digits(n).len() implies is_digit(#[trigger] digits(n)[i]) by {
            if i < p.len() {
                assert(digits(n)[i] == p[i]);
            }
        }
    }
}

proof fn lemma_zero_in_front(s: Seq<char>)
    ensures
        reading(seq!['0'] + s) == reading(s),
    decreases s.len(),
{
    let z = seq!['0'] + s;
    if s.len() > 0 {
        assert(z.drop_last() =~= seq!['0'] + s.drop_last());
        assert(z.last() == s.last());
        lemma_zero_in_front(s.drop_last());
        assert(reading(z) == reading(z.drop_last()) * 10 + (z.last() as int - '0' as int));
    } else {
        assert(z.drop_last() =~= Seq::<char>::empty());
        assert(reading(Seq::<char>::empty()) == 0);
        assert(z.last() == '0');
        assert(reading(z) == reading(z.drop_last()) * 10 + (z.last() as int - '0' as int));
        assert(s =~= Seq::<char>::empty());
    }
}

proof fn lemma_padded_read(n: nat, w: nat)
    ensures
        forall|i: int| 0 <= i < padded(n, w).len() ==> is_digit(#[trigger] padded(n, w)[i]),
        reading(padded(n, w)) == n,
    decreases w,
{
    lemma_digits_read(n);
    if !(digits(n).len() >= w || w == 0) {
        let p = padded(n, (w - 1) as nat);
        lemma_padded_read(n, (w - 1) as nat);
        lemma_zero_in_front(p);
        assert forall|i: int| 0 <= i < padded(n, w).len() implies is_digit(#[trigger] padded(n, w)[i]) by {
            if i > 0 {
                assert(padded(n, w)[i] == p[i - 1]);
            }
        }
    }
}

/// A date written as `%Y-%m-%d`, with a year of four digits, has the shape
/// chrono reads back, and the fields it spells are the date's own: so a
/// date the tool writes is the date it reads.
pub proof fn law_a_written_date_spells_itself(d: Date)
    requires
        d.wf(),
        0 <= d.year <= 9999,
    ensures
        iso_shape(iso_text(d)),
        shaped_parse(iso_text(d)) == Some((d.year, d.month, d.day)),
{
    let y = padded(d.year as nat, 4);
    let m = padded(d.month as nat, 2);
    let a = padded(d.day as nat, 2);
    lemma_digits_len(d.year as nat);
    lemma_digits_len(d.month as nat);
    lemma_digits_len(d.day as nat);
    lemma_padded_len(d.year as nat, 4);
    lemma_padded_len(d.month as nat, 2);
    lemma_padded_len(d.day as nat, 2);
    lemma_padded_read(d.year as nat, 4);
    lemma_padded_read(d.month as nat, 2);
    lemma_padded_read(d.day as nat, 2);
    let t = iso_text(d);
    assert(t =~= y + seq!['-'] + m + seq!['-'] + a);
    assert(t.take(4) =~= y);
    assert(t.subrange(5, 7) =~= m);
    assert(t.subrange(8, 10) =~= a);
    assert forall|i: int| 0 <= i < 10 && i != 4 && i != 7 implies is_digit(#[trigger] t[i]) by {
        if i < 4 {
            assert(t[i] == y[i]);
        } else if i < 7 {
            assert(t[i] == m[i - 5]);
        } else {
            assert(t[i] == a[i - 8]);
        }
    }
}


/// A time written as `%H:%M` has the shape chrono reads back, and the hour
/// and minute it spells are the time's own.
pub proof fn law_a_written_time_spells_itself(t: Time)
    requires
        t.wf(),
    ensures
        clock_shape(clock_text(t)),
        shaped_clock(clock_text(t)) == Some((t.hour, t.minute)),
{
    let h = padded(t.hour as nat, 2);
    let m = padded(t.minute as nat, 2);
    lemma_digits_len(t.hour as nat);
    lemma_digits_len(t.minute as nat);
    lemma_padded_len(t.hour as nat, 2);
    lemma_padded_len(t.minute as nat, 2);
    lemma_padded_read(t.hour as nat, 2);
    lemma_padded_read(t.minute as nat, 2);
    let c = clock_text(t);
    assert(c =~= h + seq![':'] + m);
    assert(c.take(2) =~= h);
    assert(c.subrange(3, 5) =~= m);
    assert forall|i: int| 0 <= i < 5 && i != 2 implies is_digit(#[trigger] c[i]) by {
        if i < 2 {
            assert(c[i] == h[i]);
        } else {
            assert(c[i] == m[i - 3]);
        }
    }
}

} // verus!
