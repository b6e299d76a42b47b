//! Free text -> `Task`, for `ratodo add`.
//!
//! Input is flexible, storage is strict: `@tomorrow` is accepted here and
//! resolved to an ISO date before anything reaches the file.

use vstd::prelude::*;

use crate::date::{
    clock_parse, iso_date_parse, iso_shape, last_day_number, parse_clock, parse_iso_date, shaped_parse,
    weekday_of_number, Date, Time,
};
use crate::model::{rendered, views, Due, Priority, State, Task};
use crate::parse::{date_of, join, lower_ascii, lowered, priority_of, priority_word, push_joined, time_of};
use crate::strs::{
    byte_count, byte_len, byte_offsets, chars_of, good_spans, same_chars, slice_chars, spans,
    spans_view, string_of, trim, trimmed, word_at, word_spans,
};

verus! {

/// What `capture` made of one word.
///
/// The input field colours by this rather than by the leading character, so a
/// `@notaday` stays plain on screen exactly as it will in the file.
#[derive(Debug, Clone, Copy, PartialEq, Eq, Structural)]
pub enum Part {
    Text,
    Date,
    /// The `HH:MM` after a date, which the date has already taken.
    Time,
    Tag,
    Priority,
    /// `$work`: which list a new task goes to. Never part of the task.
    List,
}

/// The value of a run of decimal digits.
pub open spec fn digits_value(s: Seq<char>) -> int
    decreases s.len(),
{
    if s.len() == 0 {
        0
    } else {
        digits_value(s.drop_last()) * 10 + (s.last() as int - '0' as int)
    }
}

pub open spec fn all_digits(s: Seq<char>) -> bool {
    forall|i: int| 0 <= i < s.len() ==> '0' <= #[trigger] s[i] <= '9'
}

/// What `str::parse::<u64>` accepts: an optional `+`, then one or more
/// digits whose value fits.
pub open spec fn u64_of(s: Seq<char>) -> Option<int> {
    let b = if s.len() > 0 && s[0] == '+' {
        s.drop_first()
    } else {
        s
    };
    if b.len() > 0 && all_digits(b) && digits_value(b) <= u64::MAX {
        Some(digits_value(b))
    } else {
        None
    }
}

proof fn lemma_digits_grow(s: Seq<char>, j: int)
    requires
        all_digits(s),
        0 <= j <= s.len(),
    ensures
        0 <= digits_value(s.take(j)) <= digits_value(s),
    decreases s.len(),
{
    if j < s.len() {
        lemma_digits_grow(s.drop_last(), j);
        assert(s.drop_last().take(j) =~= s.take(j));
        assert(all_digits(s.drop_last()));
        lemma_digits_grow(s.drop_last(), s.len() - 1);
        assert(s.drop_last().take(s.len() - 1) =~= s.drop_last());
    } else {
        assert(s.take(j) =~= s);
        if s.len() > 0 {
            lemma_digits_grow(s.drop_last(), s.len() - 1);
            assert(s.drop_last().take(s.len() - 1) =~= s.drop_last());
        }
    }
}

/// `str::parse::<u64>` over characters.
pub fn parse_u64(v: &[char]) -> (r: Option<u64>)
    ensures
        match u64_of(v@) {
            Some(n) => r matches Some(k) && k as int == n,
            None => r is None,
        },
{
    let start: usize = if v.len() > 0 && v[0] == '+' {
        1
    } else {
        0
    };
    let ghost b = v@.subrange(start as int, v@.len() as int);
    assert(b =~= (if v@.len() > 0 && v@[0] == '+' {
        v@.drop_first()
    } else {
        v@
    }));
    if start >= v.len() {
        assert(b.len() == 0);
        return None;
    }
    let mut i: usize = start;
    while i < v.len()
        invariant
            start <= i <= v.len(),
            b == v@.subrange(start as int, v@.len() as int),
            b == (if v@.len() > 0 && v@[0] == '+' {
                v@.drop_first()
            } else {
                v@
            }),
            forall|k: int| start <= k < i ==> '0' <= #[trigger] v@[k] <= '9',
        decreases v.len() - i,
    {
        if v[i] < '0' || v[i] > '9' {
            assert(!all_digits(b)) by {
                assert(b[i - start] == v@[i as int]);
            }
            return None;
        }
        i += 1;
    }
    assert(all_digits(b)) by {
        assert forall|k: int| 0 <= k < b.len() implies '0' <= #[trigger] b[k] <= '9' by {
            assert(b[k] == v@[start + k]);
        }
    }
    let mut acc: u64 = 0;
    let mut j: usize = start;
    while j < v.len()
        invariant
            start <= j <= v.len(),
            b == v@.subrange(start as int, v@.len() as int),
            b == (if v@.len() > 0 && v@[0] == '+' {
                v@.drop_first()
            } else {
                v@
            }),
            all_digits(b),
            acc == digits_value(b.take(j - start)),
        decreases v.len() - j,
    {
        let ghost k = j - start;
        assert(b.take(k + 1).drop_last() =~= b.take(k));
        assert(b.take(k + 1).last() == v@[j as int]);
        let d = (v[j] as u32 - '0' as u32) as u64;
        assert(b[k] == v@[j as int]);
        assert(digits_value(b.take(k + 1)) == acc * 10 + d);
        proof {
            lemma_digits_grow(b, k + 1);
            lemma_digits_grow(b, k);
        }
        match acc.checked_mul(10) {
            Some(m) => match m.checked_add(d) {
                Some(n) => {
                    acc = n;
                },
                None => {
                    return None;
                },
            },
            None => {
                return None;
            },
        }
        j += 1;
    }
    assert(b.take(b.len() as int) =~= b);
    Some(acc)
}

/// `mon` .. `sun`, as 0 for Monday up to 6 for Sunday.
pub open spec fn weekday_code(l: Seq<char>) -> Option<int> {
    if l == seq!['m', 'o', 'n'] {
        Some(0)
    } else if l == seq!['t', 'u', 'e'] {
        Some(1)
    } else if l == seq!['w', 'e', 'd'] {
        Some(2)
    } else if l == seq!['t', 'h', 'u'] {
        Some(3)
    } else if l == seq!['f', 'r', 'i'] {
        Some(4)
    } else if l == seq!['s', 'a', 't'] {
        Some(5)
    } else if l == seq!['s', 'u', 'n'] {
        Some(6)
    } else {
        None
    }
}

/// Days from a day of weekday `from` to the next day of weekday `to`: one
/// to seven, never zero, so the same weekday means a week later.
pub open spec fn days_ahead(from: int, to: int) -> int {
    let a = (to + 7 - from) % 7;
    if a == 0 {
        7
    } else {
        a
    }
}

/// How many days after `today` a lowercased word other than an ISO date
/// points: `today`, `tomorrow`, a weekday, `3d`, `2w`.
pub open spec fn offset_of(l: Seq<char>, today: Date) -> Option<int> {
    if l == seq!['t', 'o', 'd', 'a', 'y'] {
        Some(0)
    } else if l == seq!['t', 'o', 'm', 'o', 'r', 'r', 'o', 'w'] {
        Some(1)
    } else if weekday_code(l) is Some {
        Some(days_ahead(today.weekday_spec(), weekday_code(l)->0))
    } else if l.len() > 0 && u64_of(l.drop_last()) is Some {
        let n = u64_of(l.drop_last())->0;
        if l.last() == 'd' {
            Some(n)
        } else if l.last() == 'w' && n * 7 <= u64::MAX {
            Some(n * 7)
        } else {
            None
        }
    } else {
        None
    }
}

/// The day number of the date that `s` names, as `@` reads it, or `None`
/// when it names none or one past the end of the calendar.
pub open spec fn resolved(s: Seq<char>, today: Date) -> Option<int> {
    match iso_date_parse(s) {
        Some(p) => Some(date_of(p).number()),
        None => match offset_of(lower_ascii(s), today) {
            Some(n) => if today.number() + n <= last_day_number() {
                Some(today.number() + n)
            } else {
                None
            },
            None => None,
        },
    }
}

fn weekday_of(l: &Vec<char>) -> (r: Option<u32>)
    ensures
        match weekday_code(l@) {
            Some(w) => r == Some(w as u32),
            None => r is None,
        },
{
    let names: Vec<Vec<char>> = vec![
        vec!['m', 'o', 'n'],
        vec!['t', 'u', 'e'],
        vec!['w', 'e', 'd'],
        vec!['t', 'h', 'u'],
        vec!['f', 'r', 'i'],
        vec!['s', 'a', 't'],
        vec!['s', 'u', 'n'],
    ];
    assert(names@[0]@ =~= seq!['m', 'o', 'n']);
    assert(names@[1]@ =~= seq!['t', 'u', 'e']);
    assert(names@[2]@ =~= seq!['w', 'e', 'd']);
    assert(names@[3]@ =~= seq!['t', 'h', 'u']);
    assert(names@[4]@ =~= seq!['f', 'r', 'i']);
    assert(names@[5]@ =~= seq!['s', 'a', 't']);
    assert(names@[6]@ =~= seq!['s', 'u', 'n']);
    let mut i: usize = 0;
    while i < 7
        invariant
            i <= 7,
            names@.len() == 7,
            names@[0]@ == seq!['m', 'o', 'n'],
            names@[1]@ == seq!['t', 'u', 'e'],
            names@[2]@ == seq!['w', 'e', 'd'],
            names@[3]@ == seq!['t', 'h', 'u'],
            names@[4]@ == seq!['f', 'r', 'i'],
            names@[5]@ == seq!['s', 'a', 't'],
            names@[6]@ == seq!['s', 'u', 'n'],
            forall|k: int| 0 <= k < i ==> l@ != (#[trigger] names@[k])@,
        decreases 7 - i,
    {
        if same_chars(l, &names[i]) {
            return Some(i as u32);
        }
        i += 1;
    }
    assert(l@ != names@[0]@ && l@ != names@[1]@ && l@ != names@[2]@ && l@ != names@[3]@);
    assert(l@ != names@[4]@ && l@ != names@[5]@ && l@ != names@[6]@);
    None
}

/// Strictly in the future: `@mon` typed on a Monday means the next one.
pub fn next_weekday(today: Date, target: u32) -> (r: Option<Date>)
    requires
        today.wf(),
        target < 7,
    ensures
        ({
            let n = today.number() + days_ahead(today.weekday_spec(), target as int);
            &&& r is Some <==> n <= last_day_number()
            &&& r matches Some(d) ==> d.wf() && d.number() == n
        }),
{
    let t = today.weekday();
    let ahead = (target + 7 - t) % 7;
    let ahead = if ahead == 0 {
        7
    } else {
        ahead
    };
    today.add_days(ahead as u64)
}

/// `2026-08-12`, `today`, `tomorrow`, `mon`..`sun`, `3d`, `2w`: the date a
/// word after `@` names.
pub fn resolve_date(s: &str, today: Date) -> (r: Option<Date>)
    requires
        today.wf(),
    ensures
        r is Some <==> resolved(s@, today) is Some,
        r matches Some(d) ==> d.wf() && d.number() == resolved(s@, today)->0,
        iso_date_parse(s@) matches Some(p) ==> r == Some(date_of(p)),
        iso_shape(s@) ==> (shaped_parse(s@) matches Some((y, m, d)) ==> r == Some(
            Date { year: y, month: m, day: d },
        )),
        iso_date_parse(s@) is None && lower_ascii(s@) == seq!['t', 'o', 'd', 'a', 'y'] ==> r
            == Some(today),
{
    if let Some((y, m, d)) = parse_iso_date(s) {
        return Some(Date { year: y, month: m, day: d });
    }
    let l = lowered(&chars_of(s));
    let today_word: Vec<char> = vec!['t', 'o', 'd', 'a', 'y'];
    let tomorrow_word: Vec<char> = vec!['t', 'o', 'm', 'o', 'r', 'r', 'o', 'w'];
    assert(today_word@ =~= seq!['t', 'o', 'd', 'a', 'y']);
    assert(tomorrow_word@ =~= seq!['t', 'o', 'm', 'o', 'r', 'r', 'o', 'w']);
    if same_chars(&l, &today_word) {
        return Some(today);
    }
    if same_chars(&l, &tomorrow_word) {
        return today.add_days(1);
    }
    if let Some(w) = weekday_of(&l) {
        return next_weekday(today, w);
    }
    if l.len() == 0 {
        return None;
    }
    let unit = l[l.len() - 1];
    let head = slice_chars(&l, 0, l.len() - 1);
    assert(head@ =~= l@.drop_last());
    let n = match parse_u64(&head) {
        Some(n) => n,
        None => {
            return None;
        },
    };
    if unit == 'd' {
        today.add_days(n)
    } else if unit == 'w' {
        match n.checked_mul(7) {
            Some(days) => today.add_days(days),
            None => None,
        }
    } else {
        None
    }
}

proof fn lemma_days_ahead(n: int, w: int)
    requires
        0 <= w < 7,
    ensures
        1 <= days_ahead((n - 1) % 7, w) <= 7,
        (n + days_ahead((n - 1) % 7, w) - 1) % 7 == w,
{
    let t = (n - 1) % 7;
    assert(0 <= t < 7);
    let q = (n - 1) / 7;
    assert(n - 1 == 7 * q + t);
    if w >= t {
        assert((w + 7 - t) % 7 == w - t);
        if w == t {
            assert((n + 7 - 1) == 7 * (q + 1) + w);
        } else {
            assert((n + (w - t) - 1) == 7 * q + w);
        }
    } else {
        assert((w + 7 - t) % 7 == w + 7 - t);
        assert((n + (w + 7 - t) - 1) == 7 * (q + 1) + w);
    }
}

/// The law behind `@mon` and the rest: a weekday names a day strictly after
/// `today`, at most a week on, that falls on that weekday.
pub proof fn law_weekday_is_strictly_ahead(s: Seq<char>, today: Date)
    requires
        today.wf(),
        iso_date_parse(s) is None,
        weekday_code(lower_ascii(s)) is Some,
        resolved(s, today) is Some,
    ensures
        today.number() < resolved(s, today)->0 <= today.number() + 7,
        weekday_of_number(resolved(s, today)->0) == weekday_code(lower_ascii(s))->0,
{
    let l = lower_ascii(s);
    let w = weekday_code(l)->0;
    assert(weekday_code(seq!['t', 'o', 'd', 'a', 'y']) is None);
    assert(weekday_code(seq!['t', 'o', 'm', 'o', 'r', 'r', 'o', 'w']) is None);
    assert(offset_of(l, today) == Some(days_ahead(today.weekday_spec(), w)));
    lemma_days_ahead(today.number(), w);
}

/// How far `p` looks ahead when it is given a length of time: a year, a
/// leap year included. Past it, the date is written out.
pub const HORIZON_DAYS: u64 = 366;

/// What `p` takes: everything `@` takes, plus a bare number meaning days.
/// A length of time (`2`, `3d`, `2w`) reaches a year at most; a date
/// written out is taken wherever it falls.
pub open spec fn later_days(s: Seq<char>, today: Date) -> Option<int> {
    let t = trim(s);
    match u64_of(t) {
        Some(n) => if n <= HORIZON_DAYS && today.number() + n <= last_day_number() {
            Some(today.number() + n)
        } else {
            None
        },
        None => match resolved(t, today) {
            Some(d) => if iso_date_parse(t) is Some || d <= today.number() + HORIZON_DAYS {
                Some(d)
            } else {
                None
            },
            None => None,
        },
    }
}

/// The bare number is only accepted here: a box that has just asked how
/// long has no other reading of it.
pub fn later(text: &str, today: Date) -> (r: Option<Date>)
    requires
        today.wf(),
    ensures
        r is Some <==> later_days(text@, today) is Some,
        r matches Some(d) ==> d.wf() && d.number() == later_days(text@, today)->0,
        r matches Some(d) ==> (iso_date_parse(trim(text@)) is None ==> d.number()
            <= today.number() + HORIZON_DAYS),
        u64_of(trim(text@)) is None ==> (iso_date_parse(trim(text@)) matches Some(p) ==> r
            == Some(date_of(p))),
{
    let t = trimmed(&chars_of(text));
    match parse_u64(&t) {
        Some(days) => if days <= HORIZON_DAYS {
            today.add_days(days)
        } else {
            None
        },
        None => {
            let s = string_of(&t);
            match resolve_date(s.as_str(), today) {
                Some(d) => {
                    if d.days_since(today) <= HORIZON_DAYS as i64 {
                        Some(d)
                    } else if Date::parse_iso(s.as_str()).is_some() {
                        Some(d)
                    } else {
                        None
                    }
                },
                None => None,
            }
        },
    }
}

/// `!high`, `!med` or `!low`, in any case.
pub fn parse_priority(word: &str) -> (r: Option<Priority>)
    ensures
        r == priority_of(word@),
{
    priority_word(&chars_of(word))
}

/// What a word is when it is not a date: a tag, a priority, a list's
/// name, or title.
pub open spec fn kind_of(w: Seq<char>) -> Part {
    if w.len() > 1 && w[0] == '#' {
        Part::Tag
    } else if priority_of(w) is Some {
        Part::Priority
    } else if w.len() > 1 && w[0] == '$' {
        Part::List
    } else {
        Part::Text
    }
}

pub open spec fn is_date_word(w: Seq<char>, today: Date) -> bool {
    w.len() > 0 && w[0] == '@' && resolved(w.drop_first(), today) is Some
}

/// The reading of the words from word `i` on. Only the first word that
/// resolves after an `@` is the date, and a time counts only straight after
/// it: `09:30 standup` on its own is a title somebody typed.
pub open spec fn parts_from(
    s: Seq<char>,
    sp: Seq<(int, int)>,
    i: int,
    dated: bool,
    today: Date,
) -> Seq<((int, int), Part)>
    decreases sp.len() - i,
{
    if i < 0 || i >= sp.len() {
        seq![]
    } else if !dated && is_date_word(word_at(s, sp[i]), today) {
        if i + 1 < sp.len() && clock_parse(word_at(s, sp[i + 1])) is Some {
            seq![(sp[i], Part::Date), (sp[i + 1], Part::Time)] + parts_from(
                s,
                sp,
                i + 2,
                true,
                today,
            )
        } else {
            seq![(sp[i], Part::Date)] + parts_from(s, sp, i + 1, true, today)
        }
    } else {
        seq![(sp[i], kind_of(word_at(s, sp[i])))] + parts_from(s, sp, i + 1, dated, today)
    }
}

/// Every word of `s` as a character span, with what it means.
pub open spec fn parts_of(s: Seq<char>, today: Date) -> Seq<((int, int), Part)> {
    parts_from(s, spans(s), 0, false, today)
}

pub open spec fn part_spans(v: Seq<((usize, usize), Part)>) -> Seq<((int, int), Part)> {
    v.map_values(|p: ((usize, usize), Part)| ((p.0.0 as int, p.0.1 as int), p.1))
}

fn date_word(w: &Vec<char>, today: Date) -> (r: bool)
    requires
        today.wf(),
    ensures
        r == is_date_word(w@, today),
{
    if w.len() == 0 || w[0] != '@' {
        return false;
    }
    let rest = slice_chars(w, 1, w.len());
    assert(rest@ =~= w@.drop_first());
    let s = string_of(&rest);
    resolve_date(s.as_str(), today).is_some()
}

fn kind(w: &Vec<char>) -> (r: Part)
    ensures
        r == kind_of(w@),
{
    if w.len() > 1 && w[0] == '#' {
        Part::Tag
    } else if priority_word(w).is_some() {
        Part::Priority
    } else if w.len() > 1 && w[0] == '$' {
        Part::List
    } else {
        Part::Text
    }
}

fn clock_word(w: &Vec<char>) -> (r: Option<Time>)
    ensures
        r == time_of(clock_parse(w@)),
        r matches Some(t) ==> t.wf(),
{
    let s = string_of(w);
    match parse_clock(s.as_str()) {
        Some((h, m)) => Some(Time { hour: h, minute: m }),
        None => None,
    }
}

/// The one tokenizer, over characters: `capture` builds the task out of
/// this and the input field colours it, so the screen cannot drift from the
/// parse.
pub fn parts_chars(v: &[char], today: Date) -> (r: Vec<((usize, usize), Part)>)
    requires
        today.wf(),
    ensures
        part_spans(r@) == parts_of(v@, today),
{
    let sp = word_spans(v);
    let ghost gs = spans(v@);
    let mut out: Vec<((usize, usize), Part)> = Vec::new();
    let mut dated = false;
    let mut i: usize = 0;
    while i < sp.len()
        invariant
            today.wf(),
            i <= sp@.len(),
            spans_view(sp@) == gs,
            gs == spans(v@),
            good_spans(v@, gs, 0),
            part_spans(out@) + parts_from(v@, gs, i as int, dated, today) == parts_of(v@, today),
        decreases sp@.len() - i,
    {
        let ghost before = out@;
        let (a, b) = sp[i];
        assert(gs[i as int] == (a as int, b as int));
        let w = slice_chars(v, a, b);
        if !dated && date_word(&w, today) {
            out.push(((a, b), Part::Date));
            let mut took_time = false;
            if i + 1 < sp.len() {
                let (c, d) = sp[i + 1];
                assert(gs[i + 1] == (c as int, d as int));
                let nw = slice_chars(v, c, d);
                if clock_word(&nw).is_some() {
                    out.push(((c, d), Part::Time));
                    took_time = true;
                }
            }
            proof {
                if took_time {
                    assert(part_spans(out@) =~= part_spans(before) + seq![
                        (gs[i as int], Part::Date),
                        (gs[i + 1], Part::Time),
                    ]);
                } else {
                    assert(part_spans(out@) =~= part_spans(before) + seq![
                        (gs[i as int], Part::Date),
                    ]);
                }
            }
            dated = true;
            i = if took_time {
                i + 2
            } else {
                i + 1
            };
        } else {
            let k = kind(&w);
            out.push(((a, b), k));
            assert(part_spans(out@) =~= part_spans(before) + seq![(gs[i as int], k)]);
            i += 1;
        }
    }
    assert(part_spans(out@) + parts_from(v@, gs, i as int, dated, today) =~= part_spans(out@));
    out
}

proof fn lemma_parts_in_bounds(s: Seq<char>, sp: Seq<(int, int)>, i: int, dated: bool, today: Date)
    requires
        forall|j: int| 0 <= j < sp.len() ==> 0 <= (#[trigger] sp[j]).0 < sp[j].1 <= s.len(),
    ensures
        forall|k: int|
            0 <= k < parts_from(s, sp, i, dated, today).len() ==> 0 <= (
            #[trigger] parts_from(s, sp, i, dated, today)[k]).0.0 < parts_from(
                s,
                sp,
                i,
                dated,
                today,
            )[k].0.1 <= s.len(),
    decreases sp.len() - i,
{
    let ps = parts_from(s, sp, i, dated, today);
    if 0 <= i < sp.len() {
        if !dated && is_date_word(word_at(s, sp[i]), today) {
            if i + 1 < sp.len() && clock_parse(word_at(s, sp[i + 1])) is Some {
                lemma_parts_in_bounds(s, sp, i + 2, true, today);
                let rest = parts_from(s, sp, i + 2, true, today);
                assert forall|k: int| 0 <= k < ps.len() implies 0 <= (#[trigger] ps[k]).0.0
                    < ps[k].0.1 <= s.len() by {
                    if k >= 2 {
                        assert(ps[k] == rest[k - 2]);
                    }
                }
            } else {
                lemma_parts_in_bounds(s, sp, i + 1, true, today);
                let rest = parts_from(s, sp, i + 1, true, today);
                assert forall|k: int| 0 <= k < ps.len() implies 0 <= (#[trigger] ps[k]).0.0
                    < ps[k].0.1 <= s.len() by {
                    if k >= 1 {
                        assert(ps[k] == rest[k - 1]);
                    }
                }
            }
        } else {
            lemma_parts_in_bounds(s, sp, i + 1, dated, today);
            let rest = parts_from(s, sp, i + 1, dated, today);
            assert forall|k: int| 0 <= k < ps.len() implies 0 <= (#[trigger] ps[k]).0.0
                < ps[k].0.1 <= s.len() by {
                if k >= 1 {
                    assert(ps[k] == rest[k - 1]);
                }
            }
        }
    }
}

pub open spec fn byte_range(s: Seq<char>, sp: (int, int)) -> (int, int) {
    (byte_len(s.take(sp.0)) as int, byte_len(s.take(sp.1)) as int)
}

/// Every word of `text` as a byte range, paired with what it means.
pub fn parts(text: &str, today: Date) -> (r: Vec<(std::ops::Range<usize>, Part)>)
    requires
        today.wf(),
    ensures
        r@.len() == parts_of(text@, today).len(),
        forall|k: int|
            0 <= k < r@.len() ==> {
                let p = #[trigger] parts_of(text@, today)[k];
                &&& (r@[k].0.start as int, r@[k].0.end as int) == byte_range(text@, p.0)
                &&& r@[k].1 == p.1
            },
{
    let v = chars_of(text);
    let n = byte_count(text);
    let offs = byte_offsets(&v);
    let ps = parts_chars(&v, today);
    proof {
        crate::strs::lemma_spans_good(v@);
        lemma_parts_in_bounds(v@, spans(v@), 0, false, today);
    }
    let mut out: Vec<(std::ops::Range<usize>, Part)> = Vec::new();
    let mut i: usize = 0;
    while i < ps.len()
        invariant
            i <= ps@.len(),
            part_spans(ps@) == parts_of(v@, today),
            v@ == text@,
            forall|k: int|
                0 <= k < parts_of(v@, today).len() ==> 0 <= (#[trigger] parts_of(v@, today)[k]).0.0
                    < parts_of(v@, today)[k].0.1 <= v@.len(),
            offs@.len() == v@.len() + 1,
            forall|k: int| 0 <= k <= v@.len() ==> #[trigger] offs@[k] == byte_len(v@.take(k)),
            out@.len() == i,
            forall|k: int|
                0 <= k < i ==> {
                    let p = #[trigger] parts_of(text@, today)[k];
                    &&& (out@[k].0.start as int, out@[k].0.end as int) == byte_range(text@, p.0)
                    &&& out@[k].1 == p.1
                },
        decreases ps@.len() - i,
    {
        let ((a, b), part) = ps[i];
        assert(part_spans(ps@)[i as int] == ((a as int, b as int), part));
        assert(0 <= a <= b <= v@.len()) by {
            assert(parts_of(v@, today)[i as int].0 == (a as int, b as int));
        }
        out.push((offs[a]..offs[b], part));
        i += 1;
    }
    out
}

/// What the parts of a capture add up to: the title's words, the due date
/// as a day number with its time, the tags and the priority.
pub struct Captured {
    pub title: Seq<Seq<char>>,
    pub due: Option<(int, Option<Time>)>,
    pub tags: Seq<Seq<char>>,
    pub priority: Option<Priority>,
}

pub open spec fn gather(s: Seq<char>, ps: Seq<((int, int), Part)>, today: Date) -> Captured
    decreases ps.len(),
{
    if ps.len() == 0 {
        Captured { title: seq![], due: None, tags: seq![], priority: None }
    } else {
        let g = gather(s, ps.drop_last(), today);
        let w = word_at(s, ps.last().0);
        match ps.last().1 {
            Part::Text => Captured { title: g.title.push(w), ..g },
            Part::Date => Captured {
                due: match resolved(w.drop_first(), today) {
                    Some(n) => Some((n, None)),
                    None => None,
                },
                ..g
            },
            Part::Time => Captured {
                due: match g.due {
                    Some((n, _)) => Some((n, time_of(clock_parse(w)))),
                    None => None,
                },
                ..g
            },
            Part::Tag => Captured { tags: g.tags.push(w.drop_first()), ..g },
            Part::Priority => Captured { priority: priority_of(w), ..g },
            Part::List => g,
        }
    }
}

/// What `capture` reads out of `s`.
pub open spec fn captured(s: Seq<char>, today: Date) -> Captured {
    gather(s, parts_of(s, today), today)
}

spec fn holds(due: Option<Due>, g: Captured) -> bool {
    match g.due {
        Some((n, tm)) => due matches Some(d) && d.wf() && d.date.number() == n && d.time == tm,
        None => due is None,
    }
}

/// Free text to a task: the words that mean nothing else make the title,
/// the first `@` that names a day is the due date, `#word` a tag, `!high`
/// the priority. The shorthand never reaches the file.
/// What a capture of `s` makes: an open task whose fields are what the
/// parts of `s` add up to, written in the tool's own shape.
pub open spec fn is_capture(t: Task, s: Seq<char>, today: Date) -> bool {
    let g = captured(s, today);
    &&& t.wf()
    &&& t.state == State::Open
    &&& t.title@ == join(g.title)
    &&& views(t.tags@) == g.tags
    &&& t.priority == g.priority
    &&& match g.due {
        Some((n, tm)) => t.due matches Some(d) && d.date.number() == n && d.time == tm,
        None => t.due is None,
    }
    &&& t.raw@ == rendered(State::Open, t.title@, t.due, views(t.tags@), t.priority)
    &&& t.done_on is None
    &&& t.section is None
    &&& t.file is None
    &&& !t.dirty
}

pub fn capture(text: &str, today: Date) -> (t: Task)
    requires
        today.wf(),
    ensures
        is_capture(t, text@, today),
{
    let v = chars_of(text);
    let ps = parts_chars(&v, today);
    proof {
        crate::strs::lemma_spans_good(v@);
        lemma_parts_in_bounds(v@, spans(v@), 0, false, today);
    }
    let ghost all = parts_of(v@, today);
    let mut title = String::new();
    let mut count: usize = 0;
    let mut due: Option<Due> = None;
    let mut tags: Vec<String> = Vec::new();
    let mut priority: Option<Priority> = None;
    let mut i: usize = 0;
    assert(all.take(0) =~= Seq::<((int, int), Part)>::empty());
    while i < ps.len()
        invariant
            today.wf(),
            i <= ps@.len(),
            part_spans(ps@) == all,
            all == parts_of(v@, today),
            v@ == text@,
            forall|k: int|
                0 <= k < all.len() ==> 0 <= (#[trigger] all[k]).0.0 < all[k].0.1 <= v@.len(),
            title@ == join(gather(v@, all.take(i as int), today).title),
            count == gather(v@, all.take(i as int), today).title.len(),
            count <= i,
            views(tags@) == gather(v@, all.take(i as int), today).tags,
            priority == gather(v@, all.take(i as int), today).priority,
            holds(due, gather(v@, all.take(i as int), today)),
        decreases ps@.len() - i,
    {
        let ghost g = gather(v@, all.take(i as int), today);
        let ((a, b), part) = ps[i];
        assert(all[i as int] == ((a as int, b as int), part));
        assert(all.take(i + 1).drop_last() =~= all.take(i as int));
        assert(all.take(i + 1).last() == all[i as int]);
        let w = slice_chars(&v, a, b);
        assert(w@ == word_at(v@, all[i as int].0));
        match part {
            Part::Text => {
                push_joined(&mut title, Ghost(g.title), count, &w);
                count += 1;
            },
            Part::Date => {
                let rest = slice_chars(&w, 1, w.len());
                assert(rest@ =~= w@.drop_first());
                let rs = string_of(&rest);
                due = match resolve_date(rs.as_str(), today) {
                    Some(d) => Some(Due { date: d, time: None }),
                    None => None,
                };
            },
            Part::Time => {
                match due {
                    Some(d) => {
                        due = Some(Due { date: d.date, time: clock_word(&w) });
                    },
                    None => {},
                }
            },
            Part::Tag => {
                let rest = slice_chars(&w, 1, w.len());
                assert(rest@ =~= w@.drop_first());
                let ghost t0 = tags@;
                tags.push(string_of(&rest));
                assert(views(tags@) =~= views(t0).push(rest@));
            },
            Part::Priority => {
                priority = priority_word(&w);
            },
            Part::List => {},
        }
        i += 1;
    }
    assert(all.take(ps@.len() as int) =~= all);
    Task::new(State::Open, title, due, tags, priority)
}

} // verus!
