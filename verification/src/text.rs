//! Human-facing strings for the command line, and the porcelain and status
//! lines other programs read.

use vstd::prelude::*;

use crate::agenda::{class_of, Counts};
use crate::capture::Part;
use crate::date::{clock_text, iso_text, weekday_name, Date};
use crate::model::{views, Due, State, Task};
use crate::strs::{chars_of, decimal, digits, push_char, push_str};

verus! {

/// `char::is_control`: the general category Cc, which is exactly these.
pub open spec fn is_control(c: char) -> bool {
    let u = c as u32;
    u <= 0x1f || (0x7f <= u <= 0x9f)
}

/// Every control character replaced by U+FFFD.
pub open spec fn clean(s: Seq<char>) -> Seq<char> {
    s.map_values(|c: char| if is_control(c) { '\u{fffd}' } else { c })
}

/// A todo.md can arrive over `git pull`. Control characters in it would be
/// acted on by the terminal rather than shown.
pub fn plain(s: &str) -> (r: String)
    ensures
        r@ == clean(s@),
{
    let v = chars_of(s);
    let mut out = String::new();
    let mut i: usize = 0;
    while i < v.len()
        invariant
            i <= v@.len(),
            v@ == s@,
            out@ == clean(v@.take(i as int)),
        decreases v@.len() - i,
    {
        let c = v[i];
        let u = c as u32;
        if u <= 0x1f || (0x7f <= u && u <= 0x9f) {
            push_char(&mut out, '\u{fffd}');
        } else {
            push_char(&mut out, c);
        }
        assert(clean(v@.take(i + 1)) =~= clean(v@.take(i as int)).push(
            if is_control(c) {
                '\u{fffd}'
            } else {
                c
            },
        ));
        i += 1;
    }
    assert(v@.take(v@.len() as int) =~= v@);
    out
}

/// The law the terminal relies on: nothing `plain` hands back is a control
/// character.
pub proof fn law_plain_has_no_control(s: Seq<char>)
    ensures
        forall|i: int| 0 <= i < clean(s).len() ==> !is_control(#[trigger] clean(s)[i]),
        clean(s).len() == s.len(),
{
}

/// The words joined with `sep` between them.
pub open spec fn joined(ws: Seq<Seq<char>>, sep: Seq<char>) -> Seq<char>
    decreases ws.len(),
{
    if ws.len() == 0 {
        seq![]
    } else if ws.len() == 1 {
        ws[0]
    } else {
        joined(ws.drop_last(), sep) + sep + ws.last()
    }
}

pub open spec fn cleaned(ws: Seq<Seq<char>>) -> Seq<Seq<char>> {
    ws.map_values(|w: Seq<char>| clean(w))
}

pub fn push_joined_word(s: &mut String, sofar: Ghost<Seq<Seq<char>>>, count: usize, sep: &str, w: &str)
    requires
        old(s)@ == joined(sofar@, sep@),
        count == sofar@.len(),
    ensures
        final(s)@ == joined(sofar@.push(w@), sep@),
{
    if count > 0 {
        push_str(s, sep);
    }
    push_str(s, w);
    proof {
        let n = sofar@.push(w@);
        assert(n.drop_last() =~= sofar@);
        if sofar@.len() == 0 {
            assert(final(s)@ =~= w@);
        } else {
            assert(final(s)@ =~= joined(sofar@, sep@) + sep@ + w@);
        }
    }
}

/// The checkbox as `list` prints it: `[!]` for an open task that is late.
pub open spec fn list_mark(t: Task, today: Date) -> Seq<char> {
    match t.state {
        State::Done => seq!['[', 'x', ']'],
        State::Cancelled => seq!['[', '-', ']'],
        State::Open => if t.overdue(today) {
            seq!['[', '!', ']']
        } else {
            seq!['[', ' ', ']']
        },
    }
}

pub open spec fn tags_listed(tags: Seq<Seq<char>>) -> Seq<char>
    decreases tags.len(),
{
    if tags.len() == 0 {
        seq![]
    } else {
        tags_listed(tags.drop_last()) + "  #"@ + clean(tags.last())
    }
}

pub open spec fn due_listed(due: Option<Due>) -> Seq<char> {
    match due {
        Some(d) => "  "@ + d.text().drop_first(),
        None => seq![],
    }
}

/// One task, as `ratodo list` prints it.
pub open spec fn list_text(t: Task, today: Date) -> Seq<char> {
    "  "@ + list_mark(t, today) + seq![' '] + clean(t.title@) + due_listed(t.due)
        + tags_listed(views(t.tags@)) + match t.priority {
        Some(p) => "  "@ + p.text(),
        None => seq![],
    }
}

fn push_due_listed(line: &mut String, due: Option<Due>)
    ensures
        final(line)@ == old(line)@ + due_listed(due),
{
    match due {
        Some(d) => {
            push_str(line, "  ");
            let ghost before = line@;
            d.date.push_iso(line);
            match d.time {
                Some(t) => {
                    push_char(line, ' ');
                    t.push_clock(line);
                },
                None => {},
            }
            assert(line@ =~= before + d.text().drop_first());
            assert(line@ =~= old(line)@ + due_listed(due));
        },
        None => {
            assert(old(line)@ + due_listed(due) =~= old(line)@);
        },
    }
}

fn push_tags_listed(line: &mut String, tags: &Vec<String>)
    ensures
        final(line)@ == old(line)@ + tags_listed(views(tags@)),
{
    let ghost start = line@;
    let mut i: usize = 0;
    assert(views(tags@).take(0) =~= Seq::<Seq<char>>::empty());
    assert(start + tags_listed(views(tags@).take(0)) =~= start);
    while i < tags.len()
        invariant
            i <= tags@.len(),
            line@ == start + tags_listed(views(tags@).take(i as int)),
        decreases tags@.len() - i,
    {
        push_str(line, "  #");
        let tag = plain(tags[i].as_str());
        push_str(line, tag.as_str());
        assert(views(tags@).take(i + 1).drop_last() =~= views(tags@).take(i as int));
        assert(views(tags@).take(i + 1).last() == tags@[i as int]@);
        assert(line@ =~= start + tags_listed(views(tags@).take(i + 1)));
        i += 1;
    }
    assert(views(tags@).take(tags@.len() as int) =~= views(tags@));
}

pub fn list_line(task: &Task, today: Date) -> (r: String)
    ensures
        r@ == list_text(*task, today),
{
    proof {
        reveal_strlit("[x]");
        reveal_strlit("[-]");
        reveal_strlit("[!]");
        reveal_strlit("[ ]");
    }
    let mark = match task.state {
        State::Done => "[x]",
        State::Cancelled => "[-]",
        State::Open => if task.is_overdue(today) {
            "[!]"
        } else {
            "[ ]"
        },
    };
    assert(mark@ == list_mark(*task, today));
    let mut line = String::new();
    push_str(&mut line, "  ");
    push_str(&mut line, mark);
    push_char(&mut line, ' ');
    let title = plain(task.title.as_str());
    push_str(&mut line, title.as_str());
    push_due_listed(&mut line, task.due);
    push_tags_listed(&mut line, &task.tags);
    let ghost with_tags = line@;
    match task.priority {
        Some(p) => {
            push_str(&mut line, "  ");
            push_str(&mut line, p.as_str());
        },
        None => {},
    }
    assert(line@ =~= list_text(*task, today));
    line
}

pub open spec fn state_word(s: State) -> Seq<char> {
    match s {
        State::Open => seq!['o', 'p', 'e', 'n'],
        State::Done => seq!['d', 'o', 'n', 'e'],
        State::Cancelled => seq!['c', 'a', 'n', 'c', 'e', 'l', 'l', 'e', 'd'],
    }
}

/// The five fields of a porcelain line: state, date, title, tags and
/// priority, each possibly empty.
pub open spec fn porcelain_fields(t: Task) -> Seq<Seq<char>> {
    seq![
        state_word(t.state),
        match t.due {
            Some(d) => iso_text(d.date),
            None => seq![],
        },
        clean(t.title@),
        joined(cleaned(views(t.tags@)), ","@),
        match t.priority {
            Some(p) => p.word(),
            None => seq![],
        },
    ]
}

fn tags_joined(tags: &Vec<String>) -> (r: String)
    ensures
        r@ == joined(cleaned(views(tags@)), ","@),
{
    proof {
        reveal_strlit(",");
    }
    let mut out = String::new();
    let ghost all = cleaned(views(tags@));
    let mut i: usize = 0;
    assert(all.take(0) =~= Seq::<Seq<char>>::empty());
    while i < tags.len()
        invariant
            i <= tags@.len(),
            all == cleaned(views(tags@)),
            out@ == joined(all.take(i as int), ","@),
        decreases tags@.len() - i,
    {
        let t = plain(tags[i].as_str());
        assert(all[i as int] == clean(tags@[i as int]@));
        push_joined_word(&mut out, Ghost(all.take(i as int)), i, ",", t.as_str());
        assert(all.take(i as int).push(t@) =~= all.take(i + 1));
        i += 1;
    }
    assert(all.take(tags@.len() as int) =~= all);
    out
}

/// One task for a script: the five fields, tab-separated.
pub fn porcelain_line(task: &Task) -> (r: String)
    ensures
        r@ == joined(porcelain_fields(*task), seq!['\t']),
{
    proof {
        reveal_strlit("open");
        reveal_strlit("done");
        reveal_strlit("cancelled");
    }
    let state = match task.state {
        State::Open => "open",
        State::Done => "done",
        State::Cancelled => "cancelled",
    };
    let f = Ghost(porcelain_fields(*task));
    assert(state@ =~= f@[0]);
    let mut line = String::new();
    push_str(&mut line, state);
    assert(line@ =~= joined(seq![f@[0]], seq!['\t']));
    push_char(&mut line, '\t');
    match task.due {
        Some(d) => d.date.push_iso(&mut line),
        None => {},
    }
    assert(joined(seq![f@[0], f@[1]], seq!['\t']) == joined(seq![f@[0]], seq!['\t']) + seq!['\t'] + f@[1]) by {
        assert(seq![f@[0], f@[1]].drop_last() =~= seq![f@[0]]);
    }
    assert(line@ =~= joined(seq![f@[0], f@[1]], seq!['\t']));
    push_char(&mut line, '\t');
    let title = plain(task.title.as_str());
    push_str(&mut line, title.as_str());
    assert(seq![f@[0], f@[1], f@[2]].drop_last() =~= seq![f@[0], f@[1]]);
    assert(line@ =~= joined(seq![f@[0], f@[1], f@[2]], seq!['\t']));
    push_char(&mut line, '\t');
    let tags = tags_joined(&task.tags);
    push_str(&mut line, tags.as_str());
    assert(seq![f@[0], f@[1], f@[2], f@[3]].drop_last() =~= seq![f@[0], f@[1], f@[2]]);
    assert(line@ =~= joined(seq![f@[0], f@[1], f@[2], f@[3]], seq!['\t']));
    push_char(&mut line, '\t');
    match task.priority {
        Some(p) => push_str(&mut line, p.name()),
        None => {},
    }
    assert(f@.drop_last() =~= seq![f@[0], f@[1], f@[2], f@[3]]);
    assert(line@ =~= joined(f@, seq!['\t']));
    line
}

pub open spec fn has_tab(s: Seq<char>) -> bool {
    exists|i: int| 0 <= i < s.len() && s[i] == '\t'
}

proof fn lemma_digits_no_tab(n: nat)
    ensures
        !has_tab(digits(n)),
    decreases n,
{
    if n >= 10 {
        lemma_digits_no_tab(n / 10);
        assert(!has_tab(digits(n))) by {
            if has_tab(digits(n)) {
                let i = choose|i: int| 0 <= i < digits(n).len() && digits(n)[i] == '\t';
                if i < digits(n / 10).len() {
                    assert(digits(n)[i] == digits(n / 10)[i]);
                }
            }
        }
    }
}

proof fn lemma_padded_no_tab(n: nat, w: nat)
    ensures
        !has_tab(crate::strs::padded(n, w)),
    decreases w,
{
    lemma_digits_no_tab(n);
    if digits(n).len() < w && w > 0 {
        lemma_padded_no_tab(n, (w - 1) as nat);
        let p = crate::strs::padded(n, w);
        assert(!has_tab(p)) by {
            if has_tab(p) {
                let i = choose|i: int| 0 <= i < p.len() && p[i] == '\t';
                if i > 0 {
                    assert(p[i] == crate::strs::padded(n, (w - 1) as nat)[i - 1]);
                }
            }
        }
    }
}

proof fn lemma_concat_no_tab(a: Seq<char>, b: Seq<char>)
    requires
        !has_tab(a),
        !has_tab(b),
    ensures
        !has_tab(a + b),
{
    if has_tab(a + b) {
        let i = choose|i: int| 0 <= i < (a + b).len() && (a + b)[i] == '\t';
        if i < a.len() {
            assert((a + b)[i] == a[i]);
        } else {
            assert((a + b)[i] == b[i - a.len()]);
        }
    }
}

proof fn lemma_joined_no_tab(ws: Seq<Seq<char>>, sep: Seq<char>)
    requires
        !has_tab(sep),
        forall|k: int| 0 <= k < ws.len() ==> !has_tab(#[trigger] ws[k]),
    ensures
        !has_tab(joined(ws, sep)),
    decreases ws.len(),
{
    if ws.len() > 1 {
        lemma_joined_no_tab(ws.drop_last(), sep);
        lemma_concat_no_tab(joined(ws.drop_last(), sep), sep);
        lemma_concat_no_tab(joined(ws.drop_last(), sep) + sep, ws.last());
    }
}

/// Five fields on every line, so `cut -f5` means the priority everywhere: no
/// field of a porcelain line can hold a tab of its own.
pub proof fn law_porcelain_has_five_fields(t: Task)
    ensures
        porcelain_fields(t).len() == 5,
        forall|k: int| 0 <= k < 5 ==> !has_tab(#[trigger] porcelain_fields(t)[k]),
{
    let f = porcelain_fields(t);
    match t.due {
        Some(d) => {
            let y = d.date.year as int;
            lemma_padded_no_tab(y as nat, 4);
            lemma_digits_no_tab(y as nat);
            lemma_padded_no_tab((-y) as nat, 4);
            assert(!has_tab(crate::date::year_text(y))) by {
                if y > 9999 {
                    lemma_concat_no_tab(seq!['+'], digits(y as nat));
                } else if y < 0 {
                    lemma_concat_no_tab(seq!['-'], crate::strs::padded((-y) as nat, 4));
                }
            }
            lemma_padded_no_tab(d.date.month as nat, 2);
            lemma_padded_no_tab(d.date.day as nat, 2);
            let a = crate::date::year_text(y);
            let m = crate::strs::padded(d.date.month as nat, 2);
            let dd = crate::strs::padded(d.date.day as nat, 2);
            lemma_concat_no_tab(a, seq!['-']);
            lemma_concat_no_tab(a + seq!['-'], m);
            lemma_concat_no_tab(a + seq!['-'] + m, seq!['-']);
            lemma_concat_no_tab(a + seq!['-'] + m + seq!['-'], dd);
        },
        None => {},
    }
    let cs = cleaned(views(t.tags@));
    assert forall|k: int| 0 <= k < cs.len() implies !has_tab(#[trigger] cs[k]) by {
        assert(!has_tab(cs[k])) by {
            if has_tab(cs[k]) {
                let i = choose|i: int| 0 <= i < cs[k].len() && cs[k][i] == '\t';
            }
        }
    }
    assert(","@ =~= seq![',']) by {
        reveal_strlit(",");
    }
    lemma_joined_no_tab(cs, ","@);
    assert(!has_tab(clean(t.title@))) by {
        if has_tab(clean(t.title@)) {
            let i = choose|i: int| 0 <= i < clean(t.title@).len() && clean(t.title@)[i] == '\t';
        }
    }
}

/// `3 open · 1 overdue`.
pub open spec fn status_text(c: Counts) -> Seq<char> {
    digits(c.open as nat) + " open \u{b7} "@ + digits(c.overdue as nat) + " overdue"@
}

/// The summary under `list`, and the whole of `status`.
pub fn status_line(counts: Counts) -> (r: String)
    ensures
        r@ == status_text(counts),
{
    proof {
        reveal_strlit(" open \u{b7} ");
        reveal_strlit(" overdue");
    }
    let mut s = decimal(counts.open as u64);
    push_str(&mut s, " open \u{b7} ");
    let n = decimal(counts.overdue as u64);
    push_str(&mut s, n.as_str());
    push_str(&mut s, " overdue");
    s
}

/// The tooltip's clauses: always the open count, then the tasks due today
/// and the overdue ones when there are any.
pub open spec fn tooltip_parts(c: Counts) -> Seq<Seq<char>> {
    let first = seq![digits(c.open as nat) + " open"@];
    let second = if c.today > 0 {
        first.push(digits(c.today as nat) + " due today"@)
    } else {
        first
    };
    if c.overdue > 0 {
        second.push(digits(c.overdue as nat) + " overdue"@)
    } else {
        second
    }
}

/// `{"text":…,"tooltip":…,"class":…}`, hand-formatted: every value in it is
/// a number or one of a few fixed words, so nothing needs escaping.
pub open spec fn status_json_text(c: Counts) -> Seq<char> {
    let text = if c.overdue > 0 {
        digits(c.open as nat) + " \u{25cb} "@ + digits(c.overdue as nat) + seq!['!']
    } else {
        digits(c.open as nat) + " \u{25cb}"@
    };
    "{\"text\":\""@ + text + "\",\"tooltip\":\""@ + joined(tooltip_parts(c), ", "@)
        + "\",\"class\":\""@ + class_of(c) + "\"}"@
}

/// One line for waybar or eww.
pub fn status_json(counts: Counts) -> (r: String)
    ensures
        r@ == status_json_text(counts),
{
    proof {
        reveal_strlit("{\"text\":\"");
        reveal_strlit(" \u{25cb} ");
        reveal_strlit(" \u{25cb}");
        reveal_strlit("\",\"tooltip\":\"");
        reveal_strlit(" open");
        reveal_strlit(" due today");
        reveal_strlit(" overdue");
        reveal_strlit(", ");
        reveal_strlit("\",\"class\":\"");
        reveal_strlit("\"}");
    }
    let mut s = String::new();
    push_str(&mut s, "{\"text\":\"");
    let open = decimal(counts.open as u64);
    push_str(&mut s, open.as_str());
    if counts.overdue > 0 {
        push_str(&mut s, " \u{25cb} ");
        let n = decimal(counts.overdue as u64);
        push_str(&mut s, n.as_str());
        push_char(&mut s, '!');
    } else {
        push_str(&mut s, " \u{25cb}");
    }
    push_str(&mut s, "\",\"tooltip\":\"");
    let ghost head = s@;
    let mut tip = String::new();
    let ghost parts = tooltip_parts(counts);
    push_str(&mut tip, open.as_str());
    push_str(&mut tip, " open");
    let ghost p1 = seq![digits(counts.open as nat) + " open"@];
    assert(tip@ =~= joined(p1, seq![',', ' ']));
    let ghost mut sofar = p1;
    let mut count: usize = 1;
    if counts.today > 0 {
        let mut w = decimal(counts.today as u64);
        push_str(&mut w, " due today");
        push_joined_word(&mut tip, Ghost(sofar), count, ", ", w.as_str());
        proof {
            sofar = sofar.push(w@);
        }
        assert(sofar.len() == 2);
        count = 2;
    }
    if counts.overdue > 0 {
        let mut w = decimal(counts.overdue as u64);
        push_str(&mut w, " overdue");
        push_joined_word(&mut tip, Ghost(sofar), count, ", ", w.as_str());
        proof {
            sofar = sofar.push(w@);
        }
    }
    assert(sofar =~= parts);
    push_str(&mut s, tip.as_str());
    push_str(&mut s, "\",\"class\":\"");
    push_str(&mut s, counts.class());
    push_str(&mut s, "\"}");
    assert(s@ =~= status_json_text(counts));
    s
}

/// `%Y-%m-%d`, and ` %H:%M` after it when there is a time.
pub open spec fn stamp_of(d: Due) -> Seq<char> {
    match d.time {
        Some(t) => iso_text(d.date) + seq![' '] + clock_text(t),
        None => iso_text(d.date),
    }
}

/// Near dates read as words with the date after them, far and past ones as
/// the date alone.
pub open spec fn relative_text(d: Due, today: Date) -> Seq<char> {
    let days = d.date.number() - today.number();
    let word = if days == 0 {
        seq!['t', 'o', 'd', 'a', 'y']
    } else if days == 1 {
        seq!['t', 'o', 'm', 'o', 'r', 'r', 'o', 'w']
    } else {
        weekday_name(d.date.weekday_spec())
    };
    if 0 <= days <= 6 {
        word + seq![' ', '('] + stamp_of(d) + seq![')']
    } else {
        stamp_of(d)
    }
}

pub fn relative(due: Due, today: Date) -> (r: String)
    requires
        due.date.wf(),
        today.wf(),
    ensures
        r@ == relative_text(due, today),
{
    let days = due.date.days_since(today);
    let mut stamp = String::new();
    due.date.push_iso(&mut stamp);
    match due.time {
        Some(t) => {
            push_char(&mut stamp, ' ');
            t.push_clock(&mut stamp);
        },
        None => {},
    }
    assert(stamp@ =~= stamp_of(due));
    if days < 0 || days > 6 {
        return stamp;
    }
    proof {
        reveal_strlit("today");
        reveal_strlit("tomorrow");
        reveal_strlit(" (");
    }
    let word = if days == 0 {
        "today"
    } else if days == 1 {
        "tomorrow"
    } else {
        due.date.weekday_word()
    };
    let mut s = String::new();
    push_str(&mut s, word);
    push_str(&mut s, " (");
    push_str(&mut s, stamp.as_str());
    push_char(&mut s, ')');
    assert(s@ =~= relative_text(due, today));
    s
}

pub open spec fn tag_parts(tags: Seq<Seq<char>>) -> Seq<(Part, Seq<char>)> {
    tags.map_values(|t: Seq<char>| (Part::Tag, seq!['#'] + clean(t)))
}

/// Everything a capture understood except the title, each with what it is.
pub open spec fn field_parts_of(t: Task, today: Date) -> Seq<(Part, Seq<char>)> {
    let date = match t.due {
        Some(d) => seq![(Part::Date, "due "@ + relative_text(d, today))],
        None => seq![],
    };
    let prio = match t.priority {
        Some(p) => seq![(Part::Priority, p.text())],
        None => seq![],
    };
    date + tag_parts(views(t.tags@)) + prio
}

pub open spec fn part_views(v: Seq<(Part, String)>) -> Seq<(Part, Seq<char>)> {
    v.map_values(|p: (Part, String)| (p.0, p.1@))
}

/// The fields still paired with what each one is, for the caller that can
/// colour them; `fields` is the same list as text.
pub fn field_parts(task: &Task, today: Date) -> (r: Vec<(Part, String)>)
    requires
        today.wf(),
        task.due matches Some(d) ==> d.date.wf(),
    ensures
        part_views(r@) == field_parts_of(*task, today),
{
    proof {
        reveal_strlit("due ");
    }
    let mut parts: Vec<(Part, String)> = Vec::new();
    match task.due {
        Some(d) => {
            let mut s = String::new();
            push_str(&mut s, "due ");
            let rel = relative(d, today);
            push_str(&mut s, rel.as_str());
            parts.push((Part::Date, s));
        },
        None => {},
    }
    let ghost head = part_views(parts@);
    assert(head =~= match task.due {
        Some(d) => seq![(Part::Date, "due "@ + relative_text(d, today))],
        None => Seq::<(Part, Seq<char>)>::empty(),
    });
    let mut i: usize = 0;
    while i < task.tags.len()
        invariant
            i <= task.tags@.len(),
            part_views(parts@) == head + tag_parts(views(task.tags@).take(i as int)),
        decreases task.tags@.len() - i,
    {
        let mut s = String::new();
        push_char(&mut s, '#');
        let t = plain(task.tags[i].as_str());
        push_str(&mut s, t.as_str());
        let ghost before = part_views(parts@);
        parts.push((Part::Tag, s));
        assert(part_views(parts@) =~= before.push((Part::Tag, seq!['#'] + clean(task.tags@[i as int]@))));
        assert(tag_parts(views(task.tags@).take(i + 1)) =~= tag_parts(views(task.tags@).take(i as int)).push(
            (Part::Tag, seq!['#'] + clean(task.tags@[i as int]@)),
        ));
        i += 1;
    }
    assert(views(task.tags@).take(task.tags@.len() as int) =~= views(task.tags@));
    let ghost mid = part_views(parts@);
    match task.priority {
        Some(p) => {
            let mut s = String::new();
            push_str(&mut s, p.as_str());
            parts.push((Part::Priority, s));
        },
        None => {},
    }
    assert(part_views(parts@) =~= field_parts_of(*task, today));
    parts
}

pub open spec fn texts_of(v: Seq<(Part, Seq<char>)>) -> Seq<Seq<char>> {
    v.map_values(|p: (Part, Seq<char>)| p.1)
}

/// The fields joined with `  {dot}  ` between them.
pub fn fields(task: &Task, today: Date, dot: &str) -> (r: String)
    requires
        today.wf(),
        task.due matches Some(d) ==> d.date.wf(),
    ensures
        r@ == joined(texts_of(field_parts_of(*task, today)), seq![' ', ' '] + dot@ + seq![' ', ' ']),
{
    let parts = field_parts(task, today);
    proof {
        reveal_strlit("  ");
    }
    let mut sep = String::new();
    push_str(&mut sep, "  ");
    push_str(&mut sep, dot);
    push_str(&mut sep, "  ");
    let ghost all = texts_of(part_views(parts@));
    let mut out = String::new();
    let mut i: usize = 0;
    while i < parts.len()
        invariant
            i <= parts@.len(),
            all == texts_of(part_views(parts@)),
            out@ == joined(all.take(i as int), sep@),
        decreases parts@.len() - i,
    {
        push_joined_word(&mut out, Ghost(all.take(i as int)), i, sep.as_str(), parts[i].1.as_str());
        assert(all.take(i as int).push(parts@[i as int].1@) =~= all.take(i + 1));
        i += 1;
    }
    assert(all.take(parts@.len() as int) =~= all);
    assert(sep@ =~= seq![' ', ' '] + dot@ + seq![' ', ' ']);
    out
}

/// `added: {title}`, and `  ·  ` with the fields when there are any.
pub open spec fn added_text(t: Task, today: Date) -> Seq<char> {
    let title = seq!['a', 'd', 'd', 'e', 'd', ':', ' '] + clean(t.title@);
    let rest = joined(texts_of(field_parts_of(t, today)), seq![' ', ' ', '\u{b7}', ' ', ' ']);
    if rest.len() == 0 {
        title
    } else {
        title + seq![' ', ' ', '\u{b7}', ' ', ' '] + rest
    }
}

/// The one line `ratodo add` prints before getting out of the way.
pub fn added(task: &Task, today: Date) -> (r: String)
    requires
        today.wf(),
        task.due matches Some(d) ==> d.date.wf(),
    ensures
        r@ == added_text(*task, today),
{
    proof {
        reveal_strlit("added: ");
        reveal_strlit("\u{b7}");
        reveal_strlit("  \u{b7}  ");
    }
    let mut s = String::new();
    push_str(&mut s, "added: ");
    let title = plain(task.title.as_str());
    push_str(&mut s, title.as_str());
    let rest = fields(task, today, "\u{b7}");
    assert(seq![' ', ' '] + "\u{b7}"@ + seq![' ', ' '] =~= seq![' ', ' ', '\u{b7}', ' ', ' ']);
    if rest.as_str().unicode_len() > 0 {
        push_str(&mut s, "  \u{b7}  ");
        push_str(&mut s, rest.as_str());
    }
    assert(s@ =~= added_text(*task, today));
    s
}

/// The one line `ratodo done` prints: `done: {title}`.
pub fn marked_done(task: &Task) -> (r: String)
    ensures
        r@ == seq!['d', 'o', 'n', 'e', ':', ' '] + clean(task.title@),
{
    proof {
        reveal_strlit("done: ");
    }
    let mut s = String::new();
    push_str(&mut s, "done: ");
    let title = plain(task.title.as_str());
    push_str(&mut s, title.as_str());
    s
}

pub open spec fn candidates_listed(c: Seq<Seq<char>>) -> Seq<char>
    decreases c.len(),
{
    if c.len() == 0 {
        seq![]
    } else {
        candidates_listed(c.drop_last()) + "\n  "@ + clean(c.last())
    }
}

/// Why nothing was changed and what to type instead, ending by saying the
/// file was left alone.
pub open spec fn ambiguous_text(text: Seq<char>, candidates: Seq<Seq<char>>) -> Seq<char> {
    seq!['\''] + clean(text) + "' matches "@ + digits(candidates.len()) + " tasks:"@
        + candidates_listed(candidates)
        + "\nbe more specific \u{2014} nothing was changed"@
}

pub fn ambiguous(text: &str, candidates: &[String]) -> (r: String)
    ensures
        r@ == ambiguous_text(text@, views(candidates@)),
{
    proof {
        reveal_strlit("' matches ");
        reveal_strlit(" tasks:");
        reveal_strlit("\n  ");
    }
    let mut out = String::new();
    push_char(&mut out, '\'');
    let t = plain(text);
    push_str(&mut out, t.as_str());
    push_str(&mut out, "' matches ");
    let n = decimal(candidates.len() as u64);
    push_str(&mut out, n.as_str());
    push_str(&mut out, " tasks:");
    let ghost head = out@;
    let mut i: usize = 0;
    while i < candidates.len()
        invariant
            i <= candidates@.len(),
            out@ == head + candidates_listed(views(candidates@).take(i as int)),
        decreases candidates@.len() - i,
    {
        push_str(&mut out, "\n  ");
        let c = plain(candidates[i].as_str());
        push_str(&mut out, c.as_str());
        assert(views(candidates@).take(i + 1).drop_last() =~= views(candidates@).take(i as int));
        assert(out@ =~= head + candidates_listed(views(candidates@).take(i + 1)));
        i += 1;
    }
    assert(views(candidates@).take(candidates@.len() as int) =~= views(candidates@));
    push_str(&mut out, "\nbe more specific \u{2014} nothing was changed");
    assert(out@ =~= ambiguous_text(text@, views(candidates@)));
    out
}

} // verus!
