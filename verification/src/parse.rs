//! `todo.md` -> `Doc`. Every unrecognised line survives as `Item::Text`.
//! Reading is more permissive than writing: `- [X]`, `* [ ]` and `+ [ ]` all
//! parse, but only `- [ ]` is ever written.

use vstd::prelude::*;

use crate::date::{clock_parse, iso_date_parse, Date, Time};
use crate::model::{done_mark, Doc, Due, Ending, Item, Line, Priority, State, Task};
use crate::strs::{
    chars_of, is_space, push_char, push_chars, slice_chars, spans, spans_view, string_of,
    trim, trim_start, word_at, word_spans, good_spans,
};

verus! {

pub open spec fn ascii_lower(c: char) -> char {
    if 'A' <= c <= 'Z' {
        ((c as u32) + 32) as char
    } else {
        c
    }
}

pub open spec fn lower_ascii(s: Seq<char>) -> Seq<char> {
    s.map_values(|c: char| ascii_lower(c))
}

pub fn lower_char(c: char) -> (r: char)
    ensures
        r == ascii_lower(c),
{
    if 'A' <= c && c <= 'Z' {
        ((c as u8) + 32) as char
    } else {
        c
    }
}

pub fn lowered(v: &[char]) -> (r: Vec<char>)
    ensures
        r@ == lower_ascii(v@),
{
    let mut r: Vec<char> = Vec::new();
    let mut i: usize = 0;
    while i < v.len()
        invariant
            i <= v.len(),
            r@ == lower_ascii(v@.take(i as int)),
        decreases v.len() - i,
    {
        r.push(lower_char(v[i]));
        assert(lower_ascii(v@.take(i + 1)) =~= lower_ascii(v@.take(i as int)).push(
            ascii_lower(v@[i as int]),
        ));
        i += 1;
    }
    assert(v@.take(v.len() as int) =~= v@);
    r
}

/// `!high`, `!med` or `!low`, in any case.
pub open spec fn priority_of(w: Seq<char>) -> Option<Priority> {
    if w.len() > 0 && w[0] == '!' {
        let rest = lower_ascii(w.drop_first());
        if rest == Priority::High.word() {
            Some(Priority::High)
        } else if rest == Priority::Med.word() {
            Some(Priority::Med)
        } else if rest == Priority::Low.word() {
            Some(Priority::Low)
        } else {
            None
        }
    } else {
        None
    }
}

pub fn priority_word(w: &[char]) -> (r: Option<Priority>)
    ensures
        r == priority_of(w@),
{
    if w.len() == 0 || w[0] != '!' {
        return None;
    }
    let rest = lowered(&slice_chars(w, 1, w.len()));
    assert(w@.subrange(1, w@.len() as int) =~= w@.drop_first());
    let high: Vec<char> = vec!['h', 'i', 'g', 'h'];
    let med: Vec<char> = vec!['m', 'e', 'd'];
    let low: Vec<char> = vec!['l', 'o', 'w'];
    assert(high@ =~= Priority::High.word());
    assert(med@ =~= Priority::Med.word());
    assert(low@ =~= Priority::Low.word());
    if crate::strs::same_chars(&rest, &high) {
        Some(Priority::High)
    } else if crate::strs::same_chars(&rest, &med) {
        Some(Priority::Med)
    } else if crate::strs::same_chars(&rest, &low) {
        Some(Priority::Low)
    } else {
        None
    }
}

/// Words joined with single spaces.
pub open spec fn join(ws: Seq<Seq<char>>) -> Seq<char>
    decreases ws.len(),
{
    if ws.len() == 0 {
        seq![]
    } else if ws.len() == 1 {
        ws[0]
    } else {
        join(ws.drop_last()) + seq![' '] + ws.last()
    }
}

pub fn push_joined(s: &mut String, sofar: Ghost<Seq<Seq<char>>>, count: usize, w: &[char])
    requires
        old(s)@ == join(sofar@),
        count == sofar@.len(),
    ensures
        final(s)@ == join(sofar@.push(w@)),
{
    if count > 0 {
        push_char(s, ' ');
    }
    push_chars(s, w);
    proof {
        let n = sofar@.push(w@);
        assert(n.drop_last() =~= sofar@);
        if sofar@.len() == 0 {
            assert(final(s)@ =~= w@);
        }
    }
}

/// What the words after the checkbox said, as the reader takes them.
pub struct Meta {
    pub title: Seq<Seq<char>>,
    pub due: Option<(Due, int, int)>,
    pub stamp: Option<(Date, int, int)>,
    pub tags: Seq<Seq<char>>,
    pub priority: Option<Priority>,
}

pub open spec fn empty_meta() -> Meta {
    Meta { title: seq![], due: None, stamp: None, tags: seq![], priority: None }
}

pub open spec fn date_of(p: (i32, u32, u32)) -> Date {
    Date { year: p.0, month: p.1, day: p.2 }
}

pub open spec fn time_of(p: Option<(u32, u32)>) -> Option<Time> {
    match p {
        Some((h, m)) => Some(Time { hour: h, minute: m }),
        None => None,
    }
}

/// The reader's walk over the words, from word `i` on: the first `@date` is
/// the due date and takes an `HH:MM` straight after it, the first `✓date` is
/// the completion stamp, `#word` is a tag, `!high` `!med` `!low` the
/// priority, and everything else stays in the title in order.
pub open spec fn walk(r: Seq<char>, sp: Seq<(int, int)>, i: int, m: Meta) -> Meta
    decreases sp.len() - i,
{
    if i < 0 || i >= sp.len() {
        m
    } else {
        let w = word_at(r, sp[i]);
        if w.len() > 0 && w[0] == '@' && m.due is None && iso_date_parse(w.drop_first()) is Some {
            let date = date_of(iso_date_parse(w.drop_first())->0);
            let time = if i + 1 < sp.len() {
                clock_parse(word_at(r, sp[i + 1]))
            } else {
                None
            };
            let due = Due { date, time: time_of(time) };
            walk(
                r,
                sp,
                if time is Some { i + 2 } else { i + 1 },
                Meta { due: Some((due, sp[i].0, sp[i].1)), ..m },
            )
        } else if w.len() > 0 && w[0] == done_mark() && m.stamp is None && iso_date_parse(
            w.drop_first(),
        ) is Some {
            let date = date_of(iso_date_parse(w.drop_first())->0);
            walk(r, sp, i + 1, Meta { stamp: Some((date, sp[i].0, sp[i].1)), ..m })
        } else if w.len() > 1 && w[0] == '#' {
            walk(r, sp, i + 1, Meta { tags: m.tags.push(w.drop_first()), ..m })
        } else if priority_of(w) is Some {
            walk(r, sp, i + 1, Meta { priority: priority_of(w), ..m })
        } else {
            walk(r, sp, i + 1, Meta { title: m.title.push(w), ..m })
        }
    }
}

/// The reading of the words of `r`, by `walk`.
pub open spec fn meta_of(r: Seq<char>) -> Meta {
    walk(r, spans(r), 0, empty_meta())
}

struct MetaOut {
    title: String,
    due: Option<(Due, usize, usize)>,
    stamp: Option<(Date, usize, usize)>,
    tags: Vec<String>,
    priority: Option<Priority>,
}

spec fn same_meta(o: MetaOut, m: Meta) -> bool {
    &&& o.title@ == join(m.title)
    &&& crate::model::views(o.tags@) == m.tags
    &&& o.priority == m.priority
    &&& match (o.due, m.due) {
        (Some((d, a, b)), Some((e, x, y))) => d == e && a == x && b == y,
        (None, None) => true,
        _ => false,
    }
    &&& match (o.stamp, m.stamp) {
        (Some((d, a, b)), Some((e, x, y))) => d == e && a == x && b == y,
        (None, None) => true,
        _ => false,
    }
}

fn read_meta(r: &[char]) -> (o: MetaOut)
    ensures
        same_meta(o, meta_of(r@)),
        o.due matches Some((d, _, _)) ==> d.wf(),
        o.stamp matches Some((d, _, _)) ==> d.wf(),
        o.due matches Some((_, a, b)) ==> a < b <= r@.len() && r@[a as int] == '@' && forall|
            k: int,
        | a <= k < b ==> !is_space(#[trigger] r@[k]),
        o.stamp matches Some((_, a, b)) ==> a < b <= r@.len() && r@[a as int] == '\u{2713}'
            && forall|k: int| a <= k < b ==> !is_space(#[trigger] r@[k]),
        o.due matches Some((_, a1, b1)) ==> o.stamp matches Some((_, a2, b2)) ==> (b1 < a2 || b2
            < a1),
{
    let sp = word_spans(r);
    let ghost gsp = spans(r@);
    let mut title = String::new();
    let ghost mut title_words: Seq<Seq<char>> = seq![];
    let mut count: usize = 0;
    let mut due: Option<(Due, usize, usize)> = None;
    let mut stamp: Option<(Date, usize, usize)> = None;
    let mut tags: Vec<String> = Vec::new();
    let mut priority: Option<Priority> = None;
    let mut i: usize = 0;
    let ghost mut dk: int = 0;
    let ghost mut sk: int = 0;
    assert(crate::model::views(tags@) =~= Seq::<Seq<char>>::empty());
    while i < sp.len()
        invariant
            spans_view(sp@) == gsp,
            gsp == spans(r@),
            good_spans(r@, gsp, 0),
            title@ == join(title_words),
            count == title_words.len(),
            count <= i,
            due matches Some((d, _, _)) ==> d.wf(),
            stamp matches Some((d, _, _)) ==> d.wf(),
            due matches Some((_, a, b)) ==> 0 <= dk < sp@.len() && gsp[dk] == (a as int, b as int)
                && r@[a as int] == '@',
            stamp matches Some((_, a, b)) ==> 0 <= sk < sp@.len() && gsp[sk] == (a as int, b as int)
                && r@[a as int] == '\u{2713}',
            due is Some && stamp is Some ==> dk != sk,
            walk(r@, gsp, i as int, Meta {
                title: title_words,
                due: match due {
                    Some((d, a, b)) => Some((d, a as int, b as int)),
                    None => None,
                },
                stamp: match stamp {
                    Some((d, a, b)) => Some((d, a as int, b as int)),
                    None => None,
                },
                tags: crate::model::views(tags@),
                priority,
            }) == meta_of(r@),
        decreases sp.len() - i,
    {
        let (a, b) = sp[i];
        assert(gsp[i as int] == (a as int, b as int));
        let w = slice_chars(r, a, b);
        assert(w@ == word_at(r@, gsp[i as int]));
        if w.len() > 0 && w[0] == '@' && due.is_none() {
            let rest = string_of(&slice_chars(&w, 1, w.len()));
            assert(rest@ =~= w@.drop_first());
            match Date::parse_iso(rest.as_str()) {
                Some(date) => {
                    let mut time: Option<Time> = None;
                    if i + 1 < sp.len() {
                        let (a2, b2) = sp[i + 1];
                        assert(gsp[i + 1] == (a2 as int, b2 as int));
                        let next = string_of(&slice_chars(r, a2, b2));
                        time = Time::parse_clock(next.as_str());
                    }
                    due = Some((Due { date, time }, a, b));
                    proof {
                        dk = i as int;
                    }
                    i = if time.is_some() { i + 2 } else { i + 1 };
                    continue;
                },
                None => {},
            }
        }
        if w.len() > 0 && w[0] == '\u{2713}' && stamp.is_none() {
            let rest = string_of(&slice_chars(&w, 1, w.len()));
            assert(rest@ =~= w@.drop_first());
            match Date::parse_iso(rest.as_str()) {
                Some(date) => {
                    stamp = Some((date, a, b));
                    proof {
                        sk = i as int;
                    }
                    i = i + 1;
                    continue;
                },
                None => {},
            }
        }
        if w.len() > 1 && w[0] == '#' {
            let ghost before = tags@;
            tags.push(string_of(&slice_chars(&w, 1, w.len())));
            assert(w@.subrange(1, w@.len() as int) =~= w@.drop_first());
            assert(crate::model::views(tags@) =~= crate::model::views(before).push(w@.drop_first()));
            i = i + 1;
            continue;
        }
        match priority_word(&w) {
            Some(p) => {
                priority = Some(p);
                i = i + 1;
                continue;
            },
            None => {},
        }
        push_joined(&mut title, Ghost(title_words), count, &w);
        proof {
            title_words = title_words.push(w@);
        }
        count = count + 1;
        i = i + 1;
    }
    proof {
        if due is Some && stamp is Some {
            if dk < sk {
                assert(gsp[dk].1 < gsp[sk].0);
            } else {
                assert(gsp[sk].1 < gsp[dk].0);
            }
        }
    }
    MetaOut { title, due, stamp, tags, priority }
}


/// The first index from `k` on that is not a plain space.
pub open spec fn skip_blanks(r: Seq<char>, k: int) -> int
    decreases r.len() - k,
{
    if 0 <= k < r.len() && r[k] == ' ' {
        skip_blanks(r, k + 1)
    } else {
        k
    }
}

/// Where the checkbox of a task line is: optional indentation, a bullet
/// (`-`, `*` or `+`), at least one space, then `[ ]`, `[x]`, `[X]` or `[-]`
/// followed by a space or the end of the line.
pub open spec fn box_at(r: Seq<char>) -> Option<int> {
    let i = r.len() - trim_start(r).len();
    if 0 <= i && i + 1 < r.len() && (r[i] == '-' || r[i] == '*' || r[i] == '+') && r[i + 1] == ' ' {
        let j = skip_blanks(r, i + 1);
        if j + 2 < r.len() && r[j] == '[' && r[j + 2] == ']' && (r[j + 1] == ' ' || r[j + 1] == 'x'
            || r[j + 1] == 'X' || r[j + 1] == '-') && (j + 3 == r.len() || r[j + 3] == ' ') {
            Some(j + 1)
        } else {
            None
        }
    } else {
        None
    }
}

pub open spec fn state_of(c: char) -> State {
    if c == 'x' || c == 'X' {
        State::Done
    } else if c == '-' {
        State::Cancelled
    } else {
        State::Open
    }
}

pub open spec fn shifted(p: (int, int), by: int) -> (int, int) {
    (p.0 + by, p.1 + by)
}

/// What the reader makes of a task line whose checkbox is at `c`.
pub open spec fn read_task(t: Task, r: Seq<char>, c: int) -> bool {
    let m = meta_of(r.skip(c + 2));
    &&& t.raw@ == r
    &&& t.checkbox == c
    &&& t.state == state_of(r[c])
    &&& t.title@ == join(m.title)
    &&& crate::model::views(t.tags@) == m.tags
    &&& t.priority == m.priority
    &&& match m.due {
        Some((d, a, b)) => t.due == Some(d) && t.due_at == Some(((a + c + 2) as usize, (b + c
            + 2) as usize)),
        None => t.due is None && t.due_at is None,
    }
    &&& match m.stamp {
        Some((d, a, b)) => t.done_on == Some(d) && t.stamp_at == Some(((a + c + 2) as usize, (b
            + c + 2) as usize)),
        None => t.done_on is None && t.stamp_at is None,
    }
    &&& !t.dirty
    &&& t.file is None
}

fn parse_task(raw: &[char]) -> (r: Option<Task>)
    ensures
        r is Some <==> box_at(raw@) is Some,
        r matches Some(t) ==> t.wf() && read_task(t, raw@, box_at(raw@)->0) && t.section is None,
{
    let indent = crate::strs::leading_space(raw);
    let n = raw.len();
    let mut i = indent;
    if !(i < n && i + 1 < n && (raw[i] == '-' || raw[i] == '*' || raw[i] == '+') && raw[i + 1] == ' ') {
        return None;
    }
    i = i + 1;
    while i < n && raw[i] == ' '
        invariant
            indent + 1 <= i <= n,
            n == raw@.len(),
            skip_blanks(raw@, i as int) == skip_blanks(raw@, indent + 1),
        decreases n - i,
    {
        i = i + 1;
    }
    if !(i < n && i + 1 < n && i + 2 < n && raw[i] == '[' && raw[i + 2] == ']') {
        return None;
    }
    let mark = raw[i + 1];
    let state = if mark == ' ' {
        State::Open
    } else if mark == 'x' || mark == 'X' {
        State::Done
    } else if mark == '-' {
        State::Cancelled
    } else {
        return None;
    };
    let after = i + 3;
    if after < n && raw[after] != ' ' {
        return None;
    }
    let checkbox = i + 1;
    let rest = slice_chars(raw, after, n);
    assert(rest@ =~= raw@.skip(checkbox + 2));
    let m = read_meta(&rest);
    let due_at = match m.due {
        Some((_, a, b)) => Some((a + after, b + after)),
        None => None,
    };
    let stamp_at = match m.stamp {
        Some((_, a, b)) => Some((a + after, b + after)),
        None => None,
    };
    proof {
        match m.due {
            Some((_, a, b)) => {
                assert forall|k: int| a + after <= k < b + after implies !is_space(
                    #[trigger] raw@[k],
                ) by {
                    assert(raw@[k] == rest@[k - after]);
                }
                assert(raw@[a + after] == rest@[a as int]);
            },
            None => {},
        }
        match m.stamp {
            Some((_, a, b)) => {
                assert forall|k: int| a + after <= k < b + after implies !is_space(
                    #[trigger] raw@[k],
                ) by {
                    assert(raw@[k] == rest@[k - after]);
                }
                assert(raw@[a + after] == rest@[a as int]);
            },
            None => {},
        }
    }
    let t = Task {
        raw: string_of(raw),
        state,
        title: m.title,
        due: match m.due {
            Some((d, _, _)) => Some(d),
            None => None,
        },
        done_on: match m.stamp {
            Some((d, _, _)) => Some(d),
            None => None,
        },
        tags: m.tags,
        priority: m.priority,
        section: None,
        file: None,
        dirty: false,
        checkbox,
        due_at,
        stamp_at,
    };
    Some(t)
}

pub open spec fn hashes_dropped(t: Seq<char>) -> Seq<char>
    decreases t.len(),
{
    if t.len() > 0 && t[0] == '#' {
        hashes_dropped(t.drop_first())
    } else {
        t
    }
}

/// `## Name`: `#` marks, then a space, then the name. `#tag` on a line of its
/// own is not a heading.
pub open spec fn heading_of(r: Seq<char>) -> Option<Seq<char>> {
    let t = trim_start(r);
    if t.len() > 0 && t[0] == '#' && hashes_dropped(t).len() > 0 && hashes_dropped(t)[0] == ' ' {
        Some(trim(hashes_dropped(t)))
    } else {
        None
    }
}

pub fn heading(raw: &[char]) -> (r: Option<Vec<char>>)
    ensures
        match heading_of(raw@) {
            Some(h) => r matches Some(v) && v@ == h,
            None => r is None,
        },
{
    let a = crate::strs::leading_space(raw);
    let t = slice_chars(raw, a, raw.len());
    assert(t@ =~= trim_start(raw@));
    if t.len() == 0 || t[0] != '#' {
        return None;
    }
    let mut k: usize = 0;
    assert(t@.skip(0) =~= t@);
    while k < t.len() && t[k] == '#'
        invariant
            k <= t.len(),
            hashes_dropped(t@) == hashes_dropped(t@.skip(k as int)),
        decreases t.len() - k,
    {
        assert(t@.skip(k as int).drop_first() =~= t@.skip(k + 1));
        k = k + 1;
    }
    let name = slice_chars(&t, k, t.len());
    assert(name@ =~= t@.skip(k as int));
    if name.len() == 0 || name[0] != ' ' {
        return None;
    }
    Some(crate::strs::trimmed(&name))
}

/// The lines of a text and how each ended: what `str::lines` would lose.
pub open spec fn pieces_text(p: Seq<(Seq<char>, Ending)>) -> Seq<char>
    decreases p.len(),
{
    if p.len() == 0 {
        seq![]
    } else {
        pieces_text(p.drop_last()) + p.last().0 + p.last().1.text()
    }
}

/// How a text is cut into lines: nothing but the final line lacks an
/// ending, no line holds a `\n`, and a `\r` before a `\n` belongs to the
/// ending.
pub open spec fn well_cut(p: Seq<(Seq<char>, Ending)>) -> bool {
    &&& forall|k: int, m: int|
        0 <= k < p.len() && 0 <= m < (#[trigger] p[k]).0.len() ==> #[trigger] p[k].0[m] != '\n'
    &&& forall|k: int|
        0 <= k < p.len() && (#[trigger] p[k]).1 == Ending::Lf ==> (p[k].0.len() == 0
            || p[k].0.last() != '\r')
    &&& forall|k: int|
        0 <= k < p.len() && (#[trigger] p[k]).1 == Ending::Missing ==> k == p.len() - 1
            && p[k].0.len() > 0
}

pub open spec fn pieces_view(v: Seq<(Vec<char>, Ending)>) -> Seq<(Seq<char>, Ending)> {
    v.map_values(|p: (Vec<char>, Ending)| (p.0@, p.1))
}

/// Not `str::lines`: that discards `\r\n` against `\n`, and cannot tell a
/// file that ends with a newline from one that does not.
pub fn split_lines(v: &[char]) -> (r: Vec<(Vec<char>, Ending)>)
    ensures
        pieces_text(pieces_view(r@)) == v@,
        well_cut(pieces_view(r@)),
{
    let mut out: Vec<(Vec<char>, Ending)> = Vec::new();
    let mut start: usize = 0;
    let mut i: usize = 0;
    while i < v.len()
        invariant
            start <= i <= v.len(),
            pieces_text(pieces_view(out@)) == v@.take(start as int),
            well_cut(pieces_view(out@)),
            forall|k: int| 0 <= k < out@.len() ==> (#[trigger] out@[k]).1 != Ending::Missing,
            forall|m: int| start <= m < i ==> v@[m] != '\n',
        decreases v.len() - i,
    {
        if v[i] == '\n' {
            let ghost before = out@;
            let (end, ending) = if i > start && v[i - 1] == '\r' {
                (i - 1, Ending::CrLf)
            } else {
                (i, Ending::Lf)
            };
            let text = slice_chars(v, start, end);
            out.push((text, ending));
            proof {
                let pv = pieces_view(out@);
                assert(pv =~= pieces_view(before).push((text@, ending)));
                assert(pv.drop_last() =~= pieces_view(before));
                assert(v@.take(start as int) + text@ + ending.text() =~= v@.take(i + 1));
                assert forall|k: int, m: int|
                    0 <= k < pv.len() && 0 <= m < (#[trigger] pv[k]).0.len() implies #[trigger] pv[k].0[m]
                    != '\n' by {
                    if k == pv.len() - 1 {
                        assert(pv[k].0[m] == v@[start + m]);
                    } else {
                        assert(pv[k] == pieces_view(before)[k]);
                    }
                }
                assert forall|k: int|
                    0 <= k < pv.len() && (#[trigger] pv[k]).1 == Ending::Lf implies (pv[k].0.len() == 0
                        || pv[k].0.last() != '\r') by {
                    if k < pv.len() - 1 {
                        assert(pv[k] == pieces_view(before)[k]);
                    }
                }
                assert forall|k: int|
                    0 <= k < pv.len() && (#[trigger] pv[k]).1 == Ending::Missing implies k == pv.len()
                        - 1 && pv[k].0.len() > 0 by {
                    assert(pv[k].1 == out@[k].1);
                }
            }
            start = i + 1;
        }
        i = i + 1;
    }
    if start < v.len() {
        let ghost before = out@;
        let text = slice_chars(v, start, v.len());
        out.push((text, Ending::Missing));
        proof {
            let pv = pieces_view(out@);
            assert(pv =~= pieces_view(before).push((text@, Ending::Missing)));
            assert(pv.drop_last() =~= pieces_view(before));
            assert(v@.take(start as int) + text@ =~= v@);
            assert forall|k: int, m: int|
                0 <= k < pv.len() && 0 <= m < (#[trigger] pv[k]).0.len() implies #[trigger] pv[k].0[m]
                != '\n' by {
                if k == pv.len() - 1 {
                    assert(pv[k].0[m] == v@[start + m]);
                } else {
                    assert(pv[k] == pieces_view(before)[k]);
                }
            }
            assert forall|k: int|
                0 <= k < pv.len() && (#[trigger] pv[k]).1 == Ending::Lf implies (pv[k].0.len() == 0
                    || pv[k].0.last() != '\r') by {
                if k < pv.len() - 1 {
                    assert(pv[k] == pieces_view(before)[k]);
                }
            }
            assert forall|k: int|
                0 <= k < pv.len() && (#[trigger] pv[k]).1 == Ending::Missing implies k == pv.len() - 1
                    && pv[k].0.len() > 0 by {
                if k < pv.len() - 1 {
                    assert(pv[k].1 == before[k].1);
                }
            }
        }
    } else {
        assert(v@.take(start as int) =~= v@);
    }
    out
}


pub open spec fn opt_view(o: Option<String>) -> Option<Seq<char>> {
    match o {
        Some(s) => Some(s@),
        None => None,
    }
}

/// The heading the line at `i` sits under: the last `## Name` above it.
pub open spec fn section_before(lines: Seq<Line>, i: int) -> Option<Seq<char>>
    decreases i,
{
    if i <= 0 || i > lines.len() {
        None
    } else {
        match lines[i - 1].item {
            Item::Text(s) => match heading_of(s@) {
                Some(h) => Some(h),
                None => section_before(lines, i - 1),
            },
            Item::Task(_) => section_before(lines, i - 1),
        }
    }
}

pub open spec fn line_piece(l: Line) -> (Seq<char>, Ending) {
    (l.shown(), l.ending)
}

pub open spec fn doc_pieces(lines: Seq<Line>) -> Seq<(Seq<char>, Ending)> {
    lines.map_values(|l: Line| line_piece(l))
}

/// What the reader made of each line.
pub open spec fn line_read(lines: Seq<Line>, i: int) -> bool {
    match lines[i].item {
        Item::Task(t) => box_at(t.raw@) matches Some(c) && read_task(t, t.raw@, c) && opt_view(
            t.section,
        ) == section_before(lines, i),
        Item::Text(s) => box_at(s@) is None,
    }
}

pub proof fn lemma_doc_text_pieces(lines: Seq<Line>)
    ensures
        crate::model::doc_text(lines) == pieces_text(doc_pieces(lines)),
    decreases lines.len(),
{
    if lines.len() > 0 {
        lemma_doc_text_pieces(lines.drop_last());
        assert(doc_pieces(lines).drop_last() =~= doc_pieces(lines.drop_last()));
    }
}

proof fn lemma_section_prefix(lines: Seq<Line>, more: Seq<Line>, i: int)
    requires
        0 <= i <= lines.len(),
    ensures
        section_before(lines, i) == section_before(lines + more, i),
    decreases i,
{
    if i > 0 {
        lemma_section_prefix(lines, more, i - 1);
        assert((lines + more)[i - 1] == lines[i - 1]);
    }
}

/// Everything `parse` promises of the document it read from `input`.
pub open spec fn parsed_from(d: Doc, input: Seq<char>) -> bool {
    &&& d.wf()
    &&& crate::model::doc_text(d.lines@) == input
    &&& well_cut(doc_pieces(d.lines@))
    &&& forall|i: int| 0 <= i < d.lines@.len() ==> line_read(d.lines@, i)
}

/// `todo.md` -> `Doc`. Nothing is lost: the lines, in order, with their
/// endings, each one a task exactly when it has a checkbox.
pub fn parse(input: &str) -> (d: Doc)
    ensures
        parsed_from(d, input@),
{
    let v = chars_of(input);
    let pieces = split_lines(&v);
    let mut lines: Vec<Line> = Vec::new();
    let mut section: Option<String> = None;
    let mut k: usize = 0;
    while k < pieces.len()
        invariant
            k <= pieces@.len(),
            lines@.len() == k,
            doc_pieces(lines@) == pieces_view(pieces@).take(k as int),
            forall|i: int| 0 <= i < lines@.len() ==> (#[trigger] lines@[i]).wf(),
            forall|i: int| 0 <= i < lines@.len() ==> line_read(lines@, i),
            opt_view(section) == section_before(lines@, k as int),
        decreases pieces@.len() - k,
    {
        let raw = &pieces[k].0;
        let ending = pieces[k].1;
        let ghost before = lines@;
        let ghost sec_before = opt_view(section);
        let parsed = parse_task(raw);
        assert(raw@ == pieces_view(pieces@)[k as int].0);
        let item = match parsed {
            Some(mut t) => {
                t.section = match &section {
                    Some(s) => Some(s.clone()),
                    None => None,
                };
                Item::Task(t)
            },
            None => {
                match heading(raw) {
                    Some(h) => {
                        section = Some(string_of(&h));
                    },
                    None => {},
                }
                Item::Text(string_of(raw))
            },
        };
        let line = Line { item, ending };
        let ghost gline = line;
        lines.push(line);
        proof {
            assert(lines@ == before.push(gline));
            assert(doc_pieces(lines@) =~= doc_pieces(before).push(line_piece(gline)));
            assert(pieces_view(pieces@).take(k + 1) =~= pieces_view(pieces@).take(k as int).push(
                pieces_view(pieces@)[k as int],
            ));
            lemma_section_prefix(before, seq![gline], k as int);
            assert(before + seq![gline] =~= lines@);
            assert(lines@[k as int] == gline);
            assert(section_before(lines@, k as int) == sec_before);
            match gline.item {
                Item::Task(t) => {
                    assert(box_at(t.raw@) is Some);
                    assert(read_task(t, t.raw@, box_at(t.raw@)->0));
                    assert(opt_view(t.section) == sec_before);
                },
                Item::Text(x) => {
                    assert(box_at(x@) is None);
                },
            }
            assert(line_read(lines@, k as int));
            assert forall|i: int| 0 <= i < lines@.len() implies line_read(lines@, i) by {
                lemma_section_prefix(before, seq![gline], i);
                assert(before + seq![gline] =~= lines@);
                if i < k {
                    assert(line_read(before, i));
                    assert(lines@[i] == before[i]);
                } else {
                    assert(lines@[i] == gline);
                    assert(section_before(lines@, k as int) == sec_before);
                }
            }
            lemma_section_prefix(before, seq![gline], k as int);
            assert(before + seq![gline] =~= lines@);
        }
        k = k + 1;
    }
    proof {
        assert(pieces_view(pieces@).take(pieces@.len() as int) =~= pieces_view(pieces@));
        lemma_doc_text_pieces(lines@);
    }
    Doc { lines }
}


/// `h` heading marks.
pub open spec fn marks(h: nat) -> Seq<char> {
    Seq::new(h, |i: int| '#')
}

proof fn lemma_marks_dropped(h: nat, rest: Seq<char>)
    requires
        rest.len() > 0,
        rest[0] != '#',
    ensures
        hashes_dropped(marks(h) + rest) == rest,
    decreases h,
{
    if h == 0 {
        assert(marks(0) + rest =~= rest);
    } else {
        assert((marks(h) + rest)[0] == '#');
        assert((marks(h) + rest).drop_first() =~= marks((h - 1) as nat) + rest);
        lemma_marks_dropped((h - 1) as nat, rest);
    }
}

/// A heading line, `#` marks and then a space, names as its section the
/// whole rest of the line with the white space round it trimmed off: every
/// word of it, and the spaces between them.
pub proof fn law_a_heading_names_its_section(h: nat, rest: Seq<char>)
    requires
        h >= 1,
        rest.len() > 0,
        rest[0] == ' ',
    ensures
        heading_of(marks(h) + rest) == Some(crate::strs::trim(rest)),
{
    let line = marks(h) + rest;
    assert(line[0] == '#');
    assert(!crate::strs::is_space(line[0]));
    assert(trim_start(line) == line);
    lemma_marks_dropped(h, rest);
}

/// And so a task read under such a heading carries that name as its
/// section.
pub proof fn law_a_task_sits_in_the_section_above_it(d: Doc, input: Seq<char>, i: int, s: String, h: nat, rest: Seq<char>)
    requires
        parsed_from(d, input),
        1 <= i < d.lines@.len(),
        d.lines@[i - 1].item == Item::Text(s),
        s@ == marks(h) + rest,
        h >= 1,
        rest.len() > 0,
        rest[0] == ' ',
        d.lines@[i].item is Task,
    ensures
        opt_view(d.lines@[i].item->Task_0.section) == Some(crate::strs::trim(rest)),
{
    law_a_heading_names_its_section(h, rest);
    assert(line_read(d.lines@, i));
}

} // verus!
