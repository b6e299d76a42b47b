//! `todo.ics` output: one VTODO per open, dated task.

use vstd::prelude::*;

use crate::agenda::count_of;
use crate::date::{compact_text, Date, Time};
use crate::model::{identity_of, views, Priority, Task};
use crate::parse::opt_view;
use crate::strs::{
    byte_count, byte_len, byte_offsets, chars_of, digits, padded, push_char, push_chars,
    push_str, slice_chars, width,
};
use crate::text::{joined, push_joined_word};
use crate::model::Due;

verus! {

/// A moment in UTC to the second: what `DTSTAMP` records.
#[derive(Debug, Clone, Copy, PartialEq, Eq, Structural)]
pub struct Moment {
    pub date: Date,
    pub hour: u32,
    pub minute: u32,
    pub second: u32,
}

/// `%Y%m%dT%H%M%SZ`.
pub open spec fn stamp_text(m: Moment) -> Seq<char> {
    compact_text(m.date) + seq!['T'] + padded(m.hour as nat, 2) + padded(m.minute as nat, 2)
        + padded(m.second as nat, 2) + seq!['Z']
}

fn push_two(s: &mut String, n: u32)
    ensures
        final(s)@ == old(s)@ + padded(n as nat, 2),
{
    let t = crate::strs::zero_padded(n as u64, 2);
    push_str(s, t.as_str());
}

fn stamp(m: Moment) -> (r: String)
    ensures
        r@ == stamp_text(m),
{
    let mut s = String::new();
    m.date.push_compact(&mut s);
    push_char(&mut s, 'T');
    push_two(&mut s, m.hour);
    push_two(&mut s, m.minute);
    push_two(&mut s, m.second);
    push_char(&mut s, 'Z');
    assert(s@ =~= stamp_text(m));
    s
}

pub open spec fn ics_priority_of(p: Priority) -> u8 {
    match p {
        Priority::High => 1,
        Priority::Med => 5,
        Priority::Low => 9,
    }
}

pub fn ics_priority(p: Priority) -> (r: u8)
    ensures
        r == ics_priority_of(p),
{
    match p {
        Priority::High => 1,
        Priority::Med => 5,
        Priority::Low => 9,
    }
}

/// FNV-1a, 64 bits.
pub open spec fn fnv(bytes: Seq<u8>) -> u64
    decreases bytes.len(),
{
    if bytes.len() == 0 {
        0xcbf2_9ce4_8422_2325
    } else {
        (fnv(bytes.drop_last()) ^ (bytes.last() as u64)).wrapping_mul(0x0000_0100_0000_01b3)
    }
}

/// Written out rather than taken from a hasher the standard library may
/// change between releases: a UID that changes with the toolchain is the bug
/// this exists to avoid.
pub fn fnv1a(bytes: &[u8]) -> (r: u64)
    ensures
        r == fnv(bytes@),
{
    let mut hash: u64 = 0xcbf2_9ce4_8422_2325;
    let mut i: usize = 0;
    assert(bytes@.take(0) =~= Seq::<u8>::empty());
    while i < bytes.len()
        invariant
            i <= bytes@.len(),
            hash == fnv(bytes@.take(i as int)),
        decreases bytes@.len() - i,
    {
        assert(bytes@.take(i + 1).drop_last() =~= bytes@.take(i as int));
        hash = (hash ^ (bytes[i] as u64)).wrapping_mul(0x0000_0100_0000_01b3);
        i += 1;
    }
    assert(bytes@.take(bytes@.len() as int) =~= bytes@);
    hash
}

pub open spec fn hex_char(d: nat) -> char {
    if d < 10 {
        ('0' as u8 + d) as char
    } else {
        ('a' as u8 + (d - 10)) as char
    }
}

/// The last `k` hexadecimal digits of `n`, lowercase, zero-padded.
pub open spec fn hex_text(n: nat, k: nat) -> Seq<char>
    decreases k,
{
    if k == 0 {
        seq![]
    } else {
        hex_text(n / 16, (k - 1) as nat).push(hex_char(n % 16))
    }
}

fn push_hex(s: &mut String, n: u64, k: usize)
    ensures
        final(s)@ == old(s)@ + hex_text(n as nat, k as nat),
    decreases k,
{
    if k > 0 {
        push_hex(s, n / 16, k - 1);
        let d = n % 16;
        let c = if d < 10 {
            ((48u64 + d) as u8) as char
        } else {
            ((97u64 + (d - 10)) as u8) as char
        };
        push_char(s, c);
        assert(final(s)@ =~= old(s)@ + hex_text(n as nat, k as nat));
    } else {
        assert(old(s)@ + hex_text(n as nat, 0) =~= old(s)@);
    }
}

/// How a character of a text value is written: RFC 5545's escapes for the
/// syntax characters, and U+FFFD for any other control character.
pub open spec fn escape_char(c: char) -> Seq<char> {
    if c == '\\' {
        seq!['\\', '\\']
    } else if c == ';' {
        seq!['\\', ';']
    } else if c == ',' {
        seq!['\\', ',']
    } else if c == '\n' {
        seq!['\\', 'n']
    } else if crate::text::is_control(c) {
        seq!['\u{fffd}']
    } else {
        seq![c]
    }
}

pub open spec fn escaped(s: Seq<char>) -> Seq<char>
    decreases s.len(),
{
    if s.len() == 0 {
        seq![]
    } else {
        escaped(s.drop_last()) + escape_char(s.last())
    }
}

/// A `,` left unescaped in a SUMMARY silently becomes a list separator.
pub fn escape(text: &str) -> (r: String)
    ensures
        r@ == escaped(text@),
{
    let v = chars_of(text);
    let mut out = String::new();
    let mut i: usize = 0;
    assert(v@.take(0) =~= Seq::<char>::empty());
    while i < v.len()
        invariant
            i <= v@.len(),
            v@ == text@,
            out@ == escaped(v@.take(i as int)),
        decreases v@.len() - i,
    {
        let c = v[i];
        let u = c as u32;
        if c == '\\' {
            push_char(&mut out, '\\');
            push_char(&mut out, '\\');
        } else if c == ';' {
            push_char(&mut out, '\\');
            push_char(&mut out, ';');
        } else if c == ',' {
            push_char(&mut out, '\\');
            push_char(&mut out, ',');
        } else if c == '\n' {
            push_char(&mut out, '\\');
            push_char(&mut out, 'n');
        } else if u <= 0x1f || (0x7f <= u && u <= 0x9f) {
            push_char(&mut out, '\u{fffd}');
        } else {
            push_char(&mut out, c);
        }
        assert(v@.take(i + 1).drop_last() =~= v@.take(i as int));
        assert(out@ =~= escaped(v@.take(i + 1)));
        i += 1;
    }
    assert(v@.take(v@.len() as int) =~= v@);
    out
}

/// How many characters from the front of `s` fit in `b` bytes.
pub open spec fn fit(s: Seq<char>, b: int) -> nat
    decreases s.len(),
{
    if s.len() == 0 {
        0
    } else if width(s[0]) <= b {
        1 + fit(s.drop_first(), b - width(s[0]))
    } else {
        0
    }
}

/// The pieces a content line is folded into: the first within 75 bytes, each
/// later one within 74 so that with its leading space it is 75 again, and
/// every cut on a character boundary.
pub open spec fn pieces(s: Seq<char>, b: int) -> Seq<Seq<char>>
    decreases s.len(),
{
    if byte_len(s) <= b || fit(s, b) == 0 {
        seq![s]
    } else {
        proof {
            lemma_fit(s, b);
        }
        seq![s.take(fit(s, b) as int)] + pieces(s.skip(fit(s, b) as int), 74)
    }
}

/// A content line as written: its pieces joined by CRLF and a space, then
/// CRLF.
pub open spec fn folded(s: Seq<char>) -> Seq<char> {
    joined(pieces(s, 75), seq!['\r', '\n', ' ']) + seq!['\r', '\n']
}

pub proof fn lemma_fit(s: Seq<char>, b: int)
    ensures
        fit(s, b) <= s.len(),
        byte_len(s.take(fit(s, b) as int)) <= b || fit(s, b) == 0,
        fit(s, b) < s.len() ==> byte_len(s.take(fit(s, b) as int + 1)) > b,
        b >= 4 && s.len() > 0 ==> fit(s, b) > 0,
    decreases s.len(),
{
    if s.len() > 0 && width(s[0]) <= b {
        let t = s.drop_first();
        lemma_fit(t, b - width(s[0]));
        let k = fit(t, b - width(s[0])) as int;
        lemma_front(s, k + 1);
        if k < t.len() {
            lemma_front(s, k + 2);
            assert(s.take(k + 2).drop_first() =~= t.take(k + 1));
        }
        assert(s.take(k + 1).drop_first() =~= t.take(k as int));
    } else if s.len() > 0 {
        lemma_front(s, 1);
        assert(s.take(1).drop_first() =~= Seq::<char>::empty());
        assert(s.take(0) =~= Seq::<char>::empty());
    } else {
        assert(s.take(0) =~= Seq::<char>::empty());
    }
}

/// Counting bytes from the front: the first character and then the rest.
pub proof fn lemma_front(s: Seq<char>, k: int)
    requires
        1 <= k <= s.len(),
    ensures
        byte_len(s.take(k)) == width(s[0]) + byte_len(s.take(k).drop_first()),
{
    let t = s.take(k);
    crate::strs::lemma_byte_len_concat(seq![t[0]], t.drop_first());
    assert(seq![t[0]] + t.drop_first() =~= t);
    crate::strs::lemma_byte_len_push(Seq::<char>::empty(), t[0]);
    assert(Seq::<char>::empty().push(t[0]) =~= seq![t[0]]);
}

/// What folding promises: the pieces put back together are the line, the
/// first is at most 75 bytes, every later one at most 74 and never empty.
pub proof fn law_folding(s: Seq<char>, b: int)
    requires
        b >= 74,
    ensures
        pieces(s, b).len() >= 1,
        flat(pieces(s, b)) == s,
        byte_len(pieces(s, b)[0]) <= b,
        forall|k: int|
            1 <= k < pieces(s, b).len() ==> byte_len(#[trigger] pieces(s, b)[k]) <= 74
                && pieces(s, b)[k].len() > 0,
    decreases s.len(),
{
    lemma_fit(s, b);
    if byte_len(s) <= b || fit(s, b) == 0 {
        assert(seq![s].drop_last() =~= Seq::<Seq<char>>::empty());
        assert(flat(seq![s]) == flat(Seq::<Seq<char>>::empty()) + s);
        assert(flat(Seq::<Seq<char>>::empty()) + s =~= s);
    } else {
        let k = fit(s, b) as int;
        let rest = s.skip(k);
        law_folding(rest, 74);
        let p = pieces(s, b);
        assert(p == seq![s.take(k)] + pieces(rest, 74));
        lemma_flat_concat(seq![s.take(k)], pieces(rest, 74));
        assert(flat(seq![s.take(k)]) =~= s.take(k)) by {
            assert(seq![s.take(k)].drop_last() =~= Seq::<Seq<char>>::empty());
            assert(flat(seq![s.take(k)]) == flat(Seq::<Seq<char>>::empty()) + s.take(k));
            assert(flat(Seq::<Seq<char>>::empty()) + s.take(k) =~= s.take(k));
        }
        assert(s.take(k) + rest =~= s);
        assert forall|j: int| 1 <= j < p.len() implies byte_len(#[trigger] p[j]) <= 74
            && p[j].len() > 0 by {
            assert(p[j] == pieces(rest, 74)[j - 1]);
            if j == 1 {
                lemma_fit(rest, 74);
                if pieces(rest, 74).len() == 1 {
                    assert(rest.len() > 0);
                }
            }
        }
    }
}

/// The pieces written one after another.
pub open spec fn flat(p: Seq<Seq<char>>) -> Seq<char>
    decreases p.len(),
{
    if p.len() == 0 {
        seq![]
    } else {
        flat(p.drop_last()) + p.last()
    }
}

proof fn lemma_flat_concat(a: Seq<Seq<char>>, b: Seq<Seq<char>>)
    ensures
        flat(a + b) == flat(a) + flat(b),
    decreases b.len(),
{
    if b.len() == 0 {
        assert(a + b =~= a);
        assert(flat(a) + seq![] =~= flat(a));
    } else {
        assert((a + b).drop_last() =~= a + b.drop_last());
        lemma_flat_concat(a, b.drop_last());
        assert(flat(a) + flat(b.drop_last()) + b.last() =~= flat(a) + (flat(b.drop_last())
            + b.last()));
    }
}

pub open spec fn with_sep(p: Seq<Seq<char>>) -> Seq<Seq<char>> {
    p.map_values(|x: Seq<char>| x + seq!['\r', '\n', ' '])
}

proof fn lemma_joined_push(ps: Seq<Seq<char>>, x: Seq<char>)
    ensures
        joined(ps.push(x), seq!['\r', '\n', ' ']) == flat(with_sep(ps)) + x,
    decreases ps.len(),
{
    let sep = seq!['\r', '\n', ' '];
    if ps.len() == 0 {
        assert(ps.push(x) =~= seq![x]);
        assert(with_sep(ps) =~= Seq::<Seq<char>>::empty());
        assert(flat(with_sep(ps)) + x =~= x);
    } else {
        assert(ps.push(x).drop_last() =~= ps);
        lemma_joined_push(ps.drop_last(), ps.last());
        assert(ps.drop_last().push(ps.last()) =~= ps);
        assert(with_sep(ps).drop_last() =~= with_sep(ps.drop_last()));
        assert(flat(with_sep(ps)) == flat(with_sep(ps.drop_last())) + (ps.last() + sep));
        assert(joined(ps, sep) + sep + x =~= flat(with_sep(ps)) + x);
    }
}

/// Bytes of the characters from `a` up to `b`, read off the offsets.
proof fn lemma_span_bytes(v: Seq<char>, a: int, k: int)
    requires
        0 <= a <= v.len(),
        0 <= k <= v.len() - a,
    ensures
        byte_len(v.skip(a).take(k)) == byte_len(v.take(a + k)) - byte_len(v.take(a)),
{
    crate::strs::lemma_byte_len_concat(v.take(a), v.skip(a).take(k));
    assert(v.take(a) + v.skip(a).take(k) =~= v.take(a + k));
}

/// The greedy cut at `j` is the one `pieces` makes.
proof fn lemma_cut(v: Seq<char>, start: int, j: int, budget: int)
    requires
        0 <= start <= j <= v.len(),
        budget >= 74,
        byte_len(v.skip(start)) > budget,
        byte_len(v.skip(start).take(j - start)) <= budget,
        j == v.len() || byte_len(v.skip(start).take(j - start + 1)) > budget,
    ensures
        start < j,
        pieces(v.skip(start), budget) == seq![v.skip(start).take(j - start)] + pieces(v.skip(j), 74),
{
    let rest = v.skip(start);
    let k = j - start;
    lemma_fit(rest, budget);
    let f = fit(rest, budget) as int;
    assert(rest.take(rest.len() as int) =~= rest);
    if k == rest.len() {
        assert(rest.take(k) =~= rest);
    }
    if f < k {
        crate::strs::lemma_byte_len_grows(rest, f + 1, k);
    } else if k < f {
        crate::strs::lemma_byte_len_grows(rest, k + 1, f);
    }
    assert(f == k);
    assert(rest.skip(k) =~= v.skip(j));
}

/// One content line into `out`, folded: CRLF endings, and no line longer
/// than 75 octets, a continuation starting with one space that counts
/// against its own 75. Every cut falls on a character boundary.
pub fn line(text: &str, out: &mut String)
    ensures
        final(out)@ == old(out)@ + folded(text@),
{
    let v = chars_of(text);
    let total = byte_count(text);
    let offs = byte_offsets(&v);
    let n = v.len();
    assert(v@.take(n as int) =~= v@);
    assert forall|a: int, b: int| 0 <= a <= b <= n implies #[trigger] offs@[a] <= #[trigger] offs@[b] by {
        crate::strs::lemma_byte_len_grows(v@, a, b);
    }
    let mut start: usize = 0;
    let mut budget: usize = 75;
    let ghost mut done: Seq<Seq<char>> = seq![];
    assert(v@.skip(0) =~= v@);
    assert(flat(with_sep(done)) =~= Seq::<char>::empty());
    while offs[n] - offs[start] > budget
        invariant
            n == v@.len(),
            v@ == text@,
            start <= n,
            budget == 74 || budget == 75,
            offs@.len() == n + 1,
            forall|k: int| 0 <= k <= n ==> #[trigger] offs@[k] == byte_len(v@.take(k)),
            forall|a: int, b: int| 0 <= a <= b <= n ==> #[trigger] offs@[a] <= #[trigger] offs@[b],
            pieces(text@, 75) == done + pieces(v@.skip(start as int), budget as int),
            out@ == old(out)@ + flat(with_sep(done)),
        decreases n - start,
    {
        let mut j: usize = start;
        while j < n && offs[j + 1] - offs[start] <= budget
            invariant
                n == v@.len(),
                start <= j <= n,
                offs@.len() == n + 1,
                forall|k: int| 0 <= k <= n ==> #[trigger] offs@[k] == byte_len(v@.take(k)),
                forall|a: int, b: int| 0 <= a <= b <= n ==> #[trigger] offs@[a] <= #[trigger] offs@[b],
                offs@[j as int] - offs@[start as int] <= budget,
            decreases n - j,
        {
            j += 1;
        }
        proof {
            lemma_span_bytes(v@, start as int, (n - start) as int);
            assert(v@.skip(start as int).take((n - start) as int) =~= v@.skip(start as int));
            lemma_span_bytes(v@, start as int, (j - start) as int);
            if j < n {
                lemma_span_bytes(v@, start as int, (j + 1 - start) as int);
            }
            lemma_cut(v@, start as int, j as int, budget as int);
        }
        let ghost piece_v = v@.skip(start as int).take(j - start);
        let piece = slice_chars(&v, start, j);
        assert(piece@ =~= piece_v);
        push_chars(out, &piece);
        push_char(out, '\r');
        push_char(out, '\n');
        push_char(out, ' ');
        proof {
            assert(done + (seq![piece_v] + pieces(v@.skip(j as int), 74)) =~= done.push(piece_v)
                + pieces(v@.skip(j as int), 74));
            assert(with_sep(done.push(piece_v)).drop_last() =~= with_sep(done));
            assert(with_sep(done.push(piece_v)).last() == piece_v + seq!['\r', '\n', ' ']);
            done = done.push(piece_v);
        }
        assert(out@ =~= old(out)@ + flat(with_sep(done)));
        start = j;
        budget = 74;
    }
    let ghost rest = v@.skip(start as int);
    proof {
        lemma_span_bytes(v@, start as int, (n - start) as int);
        assert(rest.take(rest.len() as int) =~= rest);
        assert(pieces(rest, budget as int) == seq![rest]);
        assert(done + seq![rest] =~= done.push(rest));
        lemma_joined_push(done, rest);
    }
    let last = slice_chars(&v, start, n);
    assert(last@ =~= rest);
    push_chars(out, &last);
    push_char(out, '\r');
    push_char(out, '\n');
    assert(final(out)@ =~= old(out)@ + folded(text@));
}

/// Exported to the calendar: open and dated.
pub open spec fn exported(t: Task) -> bool {
    t.is_open() && t.due is Some
}

pub open spec fn ident(t: Task) -> Seq<char> {
    identity_of(opt_view(t.file), opt_view(t.section), t.title@)
}

pub open spec fn same_ident(id: Seq<char>) -> spec_fn(Task) -> bool {
    |t: Task| exported(t) && ident(t) == id
}

/// Which occurrence of its identity the last task of `ts` is, counting
/// only exported tasks.
pub open spec fn occurrence(ts: Seq<Task>) -> nat {
    count_of(ts, same_ident(ident(ts.last())))
}

/// The text a UID is hashed from: the identity alone the first time, with
/// the occurrence number mixed in after that.
pub open spec fn uid_key(id: Seq<char>, nth: nat) -> Seq<char> {
    if nth == 1 {
        id
    } else {
        id + seq!['\u{1}'] + digits(nth)
    }
}

pub open spec fn uid_text(id: Seq<char>, nth: nat) -> Seq<char> {
    hex_text(fnv(vstd::utf8::encode_utf8(uid_key(id, nth))) as nat, 16) + "@ratodo"@
}

/// A time is written as floating local time; a bare date stays a date.
pub open spec fn due_line(d: Due) -> Seq<char> {
    match d.time {
        Some(t) => "DUE:"@ + compact_text(d.date) + seq!['T'] + padded(t.hour as nat, 2) + padded(
            t.minute as nat,
            2,
        ) + "00"@,
        None => "DUE;VALUE=DATE:"@ + compact_text(d.date),
    }
}

pub open spec fn escaped_all(ws: Seq<Seq<char>>) -> Seq<Seq<char>> {
    ws.map_values(|w: Seq<char>| escaped(w))
}

/// The lines of one VTODO.
pub open spec fn todo_lines(t: Task, nth: nat, stamp: Seq<char>) -> Seq<Seq<char>> {
    seq![
        "BEGIN:VTODO"@,
        "UID:"@ + uid_text(ident(t), nth),
        "DTSTAMP:"@ + stamp,
        due_line(t.due->0),
        "SUMMARY:"@ + escaped(t.title@),
    ] + (if t.tags@.len() > 0 {
        seq!["CATEGORIES:"@ + joined(escaped_all(views(t.tags@)), ","@)]
    } else {
        seq![]
    }) + (match t.priority {
        Some(p) => seq!["PRIORITY:"@ + digits(ics_priority_of(p) as nat)],
        None => seq![],
    }) + seq!["STATUS:NEEDS-ACTION"@, "END:VTODO"@]
}

pub open spec fn body_lines(ts: Seq<Task>, stamp: Seq<char>) -> Seq<Seq<char>>
    decreases ts.len(),
{
    if ts.len() == 0 {
        seq![]
    } else {
        body_lines(ts.drop_last(), stamp) + if exported(ts.last()) {
            todo_lines(ts.last(), occurrence(ts), stamp)
        } else {
            seq![]
        }
    }
}

/// Every content line of the calendar, before folding.
pub open spec fn calendar_lines(ts: Seq<Task>, now: Moment) -> Seq<Seq<char>> {
    seq!["BEGIN:VCALENDAR"@, "VERSION:2.0"@, "PRODID:-//ratodo//EN"@] + body_lines(
        ts,
        stamp_text(now),
    ) + seq!["END:VCALENDAR"@]
}

/// Content lines as they go into the file, each folded.
pub open spec fn written(lines: Seq<Seq<char>>) -> Seq<char>
    decreases lines.len(),
{
    if lines.len() == 0 {
        seq![]
    } else {
        written(lines.drop_last()) + folded(lines.last())
    }
}

proof fn lemma_written_concat(a: Seq<Seq<char>>, b: Seq<Seq<char>>)
    ensures
        written(a + b) == written(a) + written(b),
    decreases b.len(),
{
    if b.len() == 0 {
        assert(a + b =~= a);
        assert(written(a) + seq![] =~= written(a));
    } else {
        assert((a + b).drop_last() =~= a + b.drop_last());
        lemma_written_concat(a, b.drop_last());
        assert(written(a) + written(b.drop_last()) + folded(b.last()) =~= written(a) + (written(
            b.drop_last(),
        ) + folded(b.last())));
    }
}

fn emit(out: &mut String, s: &str, lines: Ghost<Seq<Seq<char>>>, base: Ghost<Seq<char>>)
    requires
        old(out)@ == base@ + written(lines@),
    ensures
        final(out)@ == base@ + written(lines@.push(s@)),
{
    line(s, out);
    assert(lines@.push(s@).drop_last() =~= lines@);
    assert(final(out)@ =~= base@ + written(lines@.push(s@)));
}

fn key_text(base: &String, nth: usize) -> (r: String)
    requires
        nth >= 1,
    ensures
        r@ == uid_key(base@, nth as nat),
{
    if nth == 1 {
        base.clone()
    } else {
        let mut k = base.clone();
        push_char(&mut k, '\u{1}');
        let d = crate::strs::decimal(nth as u64);
        push_str(&mut k, d.as_str());
        k
    }
}

fn uid(base: &String, nth: usize) -> (r: String)
    requires
        nth >= 1,
    ensures
        r@ == uid_text(base@, nth as nat),
{
    proof {
        reveal_strlit("@ratodo");
    }
    let key = key_text(base, nth);
    let h = fnv1a(key.as_str().as_bytes());
    let mut s = String::new();
    push_hex(&mut s, h, 16);
    push_str(&mut s, "@ratodo");
    assert(s@ =~= uid_text(base@, nth as nat));
    s
}

fn due_text(d: Due) -> (r: String)
    ensures
        r@ == due_line(d),
{
    let mut s = String::new();
    match d.time {
        Some(t) => {
            push_str(&mut s, "DUE:");
            d.date.push_compact(&mut s);
            push_char(&mut s, 'T');
            push_two(&mut s, t.hour);
            push_two(&mut s, t.minute);
            push_str(&mut s, "00");
        },
        None => {
            push_str(&mut s, "DUE;VALUE=DATE:");
            d.date.push_compact(&mut s);
        },
    }
    assert(s@ =~= due_line(d));
    s
}

fn categories(tags: &Vec<String>) -> (r: String)
    ensures
        r@ == "CATEGORIES:"@ + joined(escaped_all(views(tags@)), ","@),
{
    let mut s = String::new();
    let ghost all = escaped_all(views(tags@));
    let mut i: usize = 0;
    assert(all.take(0) =~= Seq::<Seq<char>>::empty());
    while i < tags.len()
        invariant
            i <= tags@.len(),
            all == escaped_all(views(tags@)),
            s@ == joined(all.take(i as int), ","@),
        decreases tags@.len() - i,
    {
        let e = escape(tags[i].as_str());
        assert(all[i as int] == escaped(tags@[i as int]@));
        push_joined_word(&mut s, Ghost(all.take(i as int)), i, ",", e.as_str());
        assert(all.take(i as int).push(e@) =~= all.take(i + 1));
        i += 1;
    }
    assert(all.take(tags@.len() as int) =~= all);
    let mut r = String::new();
    push_str(&mut r, "CATEGORIES:");
    push_str(&mut r, s.as_str());
    r
}

fn same_text(a: &String, b: &String) -> (r: bool)
    ensures
        r == (a@ == b@),
{
    crate::strs::same_chars(&chars_of(a.as_str()), &chars_of(b.as_str()))
}

/// Which occurrence of its identity the task at `i` is.
fn occurrence_at(tasks: &[Task], i: usize, base: &String) -> (r: usize)
    requires
        i < tasks@.len(),
        base@ == ident(tasks@[i as int]),
        exported(tasks@[i as int]),
    ensures
        r == occurrence(tasks@.take(i + 1)),
        r >= 1,
{
    let ghost p = same_ident(base@);
    let mut n: usize = 0;
    let mut j: usize = 0;
    assert(tasks@.take(0) =~= Seq::<Task>::empty());
    while j <= i
        invariant
            i < tasks@.len(),
            j <= i + 1,
            p == same_ident(base@),
            n == count_of(tasks@.take(j as int), p),
        decreases i + 1 - j,
    {
        proof {
            crate::agenda::lemma_count_step(tasks@, p, j as int);
        }
        let t = &tasks[j];
        if t.open() && t.due.is_some() {
            let id = t.identity();
            if same_text(&id, base) {
                n = n + 1;
            }
        }
        j += 1;
    }
    assert(tasks@.take(i + 1).last() == tasks@[i as int]);
    proof {
        crate::agenda::lemma_count_step(tasks@, p, i as int);
    }
    n
}

fn write_todo(out: &mut String, task: &Task, nth: usize, stamp: &String)
    requires
        exported(*task),
        nth >= 1,
    ensures
        final(out)@ == old(out)@ + written(todo_lines(*task, nth as nat, stamp@)),
{
    let ghost base = old(out)@;
    let ghost mut ls: Seq<Seq<char>> = seq![];
    assert(out@ =~= base + written(ls));
    emit(out, "BEGIN:VTODO", Ghost(ls), Ghost(base));
    proof { ls = ls.push("BEGIN:VTODO"@); }
    let id = task.identity();
    let u = uid(&id, nth);
    let mut l = String::new();
    push_str(&mut l, "UID:");
    push_str(&mut l, u.as_str());
    emit(out, l.as_str(), Ghost(ls), Ghost(base));
    proof { ls = ls.push(l@); }
    let mut l = String::new();
    push_str(&mut l, "DTSTAMP:");
    push_str(&mut l, stamp.as_str());
    emit(out, l.as_str(), Ghost(ls), Ghost(base));
    proof { ls = ls.push(l@); }
    let d = match task.due {
        Some(d) => d,
        None => {
            return;
        },
    };
    let l = due_text(d);
    emit(out, l.as_str(), Ghost(ls), Ghost(base));
    proof { ls = ls.push(l@); }
    let e = escape(task.title.as_str());
    let mut l = String::new();
    push_str(&mut l, "SUMMARY:");
    push_str(&mut l, e.as_str());
    emit(out, l.as_str(), Ghost(ls), Ghost(base));
    proof { ls = ls.push(l@); }
    let ghost first = ls;
    if task.tags.len() > 0 {
        let l = categories(&task.tags);
        emit(out, l.as_str(), Ghost(ls), Ghost(base));
        proof { ls = ls.push(l@); }
    }
    match task.priority {
        Some(p) => {
            let mut l = String::new();
            push_str(&mut l, "PRIORITY:");
            let n = crate::strs::decimal(ics_priority(p) as u64);
            push_str(&mut l, n.as_str());
            emit(out, l.as_str(), Ghost(ls), Ghost(base));
            proof { ls = ls.push(l@); }
        },
        None => {},
    }
    emit(out, "STATUS:NEEDS-ACTION", Ghost(ls), Ghost(base));
    proof { ls = ls.push("STATUS:NEEDS-ACTION"@); }
    emit(out, "END:VTODO", Ghost(ls), Ghost(base));
    proof { ls = ls.push("END:VTODO"@); }
    assert(ls =~= todo_lines(*task, nth as nat, stamp@));
}

/// One VTODO per open, dated task. `now` is a parameter: a function that
/// reads the clock cannot be tested.
pub fn calendar(tasks: &[Task], now: Moment) -> (r: String)
    ensures
        r@ == written(calendar_lines(tasks@, now)),
{
    let st = stamp(now);
    let mut out = String::new();
    let ghost mut ls: Seq<Seq<char>> = seq![];
    let ghost base = out@;
    assert(out@ =~= base + written(ls));
    emit(&mut out, "BEGIN:VCALENDAR", Ghost(ls), Ghost(base));
    proof { ls = ls.push("BEGIN:VCALENDAR"@); }
    emit(&mut out, "VERSION:2.0", Ghost(ls), Ghost(base));
    proof { ls = ls.push("VERSION:2.0"@); }
    emit(&mut out, "PRODID:-//ratodo//EN", Ghost(ls), Ghost(base));
    proof { ls = ls.push("PRODID:-//ratodo//EN"@); }
    let ghost head = ls;
    let mut i: usize = 0;
    assert(tasks@.take(0) =~= Seq::<Task>::empty());
    assert(head + body_lines(tasks@.take(0), st@) =~= ls);
    while i < tasks.len()
        invariant
            i <= tasks@.len(),
            st@ == stamp_text(now),
            ls == head + body_lines(tasks@.take(i as int), st@),
            out@ == base + written(ls),
        decreases tasks@.len() - i,
    {
        let task = &tasks[i];
        assert(tasks@.take(i + 1).drop_last() =~= tasks@.take(i as int));
        assert(tasks@.take(i + 1).last() == tasks@[i as int]);
        if task.open() && task.due.is_some() {
            let id = task.identity();
            let nth = occurrence_at(tasks, i, &id);
            let ghost before = out@;
            write_todo(&mut out, task, nth, &st);
            proof {
                let block = todo_lines(*task, nth as nat, st@);
                lemma_written_concat(ls, block);
                ls = ls + block;
            }
            assert(ls =~= head + body_lines(tasks@.take(i + 1), st@));
        } else {
            assert(body_lines(tasks@.take(i + 1), st@) =~= body_lines(tasks@.take(i as int), st@));
        }
        i += 1;
    }
    assert(tasks@.take(tasks@.len() as int) =~= tasks@);
    emit(&mut out, "END:VCALENDAR", Ghost(ls), Ghost(base));
    proof { ls = ls.push("END:VCALENDAR"@); }
    assert(ls =~= calendar_lines(tasks@, now));
    assert(base =~= Seq::<char>::empty());
    assert(out@ =~= written(calendar_lines(tasks@, now)));
    out
}

proof fn lemma_count_same(a: Seq<Task>, b: Seq<Task>, p: spec_fn(Task) -> bool, q: spec_fn(Task) -> bool)
    requires
        a.len() == b.len(),
        forall|k: int| 0 <= k < a.len() ==> p(#[trigger] a[k]) == q(b[k]),
    ensures
        count_of(a, p) == count_of(b, q),
    decreases a.len(),
{
    if a.len() > 0 {
        lemma_count_same(a.drop_last(), b.drop_last(), p, q);
        assert(p(a[a.len() - 1]) == q(b[a.len() - 1]));
    }
}

/// A UID does not move between writes: it depends on which tasks are
/// exported and on their identities, and on nothing else. Not the time of
/// writing, not the date, the tags or the priority.
pub proof fn law_uid_depends_on_identity_alone(a: Seq<Task>, b: Seq<Task>, i: int)
    requires
        a.len() == b.len(),
        0 <= i < a.len(),
        forall|k: int|
            0 <= k < a.len() ==> exported(#[trigger] a[k]) == exported(b[k]) && ident(a[k])
                == ident(b[k]),
    ensures
        occurrence(a.take(i + 1)) == occurrence(b.take(i + 1)),
        uid_text(ident(a[i]), occurrence(a.take(i + 1))) == uid_text(
            ident(b[i]),
            occurrence(b.take(i + 1)),
        ),
{
    let id = ident(a[i]);
    assert(a.take(i + 1).last() == a[i]);
    assert(b.take(i + 1).last() == b[i]);
    assert forall|k: int| 0 <= k < a.take(i + 1).len() implies same_ident(id)(
        #[trigger] a.take(i + 1)[k],
    ) == same_ident(id)(b.take(i + 1)[k]) by {
        assert(a.take(i + 1)[k] == a[k]);
        assert(b.take(i + 1)[k] == b[k]);
    }
    lemma_count_same(a.take(i + 1), b.take(i + 1), same_ident(id), same_ident(id));
}

proof fn lemma_digit_char(a: nat, b: nat)
    requires
        a < 10,
        b < 10,
        crate::strs::digit_char(a) == crate::strs::digit_char(b),
    ensures
        a == b,
{
}

proof fn lemma_digits_injective(a: nat, b: nat)
    requires
        digits(a) == digits(b),
    ensures
        a == b,
    decreases a,
{
    if a < 10 && b < 10 {
        assert(digits(a)[0] == crate::strs::digit_char(a));
        assert(digits(b)[0] == crate::strs::digit_char(b));
        lemma_digit_char(a, b);
    } else if a < 10 {
        assert(digits(b).len() == digits(b / 10).len() + 1);
        assert(digits(b / 10).len() >= 1) by {
            if b / 10 >= 10 {
                assert(digits(b / 10).len() == digits(b / 100).len() + 1);
            }
        }
    } else if b < 10 {
        assert(digits(a).len() == digits(a / 10).len() + 1);
        assert(digits(a / 10).len() >= 1) by {
            if a / 10 >= 10 {
                assert(digits(a / 10).len() == digits(a / 100).len() + 1);
            }
        }
    } else {
        assert(digits(a).drop_last() =~= digits(a / 10));
        assert(digits(b).drop_last() =~= digits(b / 10));
        lemma_digits_injective(a / 10, b / 10);
        assert(digits(a).last() == crate::strs::digit_char(a % 10));
        assert(digits(b).last() == crate::strs::digit_char(b % 10));
        lemma_digit_char(a % 10, b % 10);
    }
}

/// Identical tasks still get one entry each: of two exported tasks with
/// the same identity, the later one hashes a different text, so the two
/// entries do not collapse into one.
pub proof fn law_duplicates_hash_different_text(ts: Seq<Task>, i: int, j: int)
    requires
        0 <= i < j < ts.len(),
        exported(ts[i]),
        exported(ts[j]),
        ident(ts[i]) == ident(ts[j]),
    ensures
        occurrence(ts.take(i + 1)) < occurrence(ts.take(j + 1)),
        uid_key(ident(ts[i]), occurrence(ts.take(i + 1))) != uid_key(
            ident(ts[j]),
            occurrence(ts.take(j + 1)),
        ),
{
    let id = ident(ts[i]);
    let p = same_ident(id);
    assert(ts.take(i + 1).last() == ts[i]);
    assert(ts.take(j + 1).last() == ts[j]);
    lemma_count_grows(ts, p, i + 1, j);
    crate::agenda::lemma_count_step(ts, p, j);
    assert(count_of(ts.take(i + 1), p) < count_of(ts.take(j + 1), p));
    let a = occurrence(ts.take(i + 1));
    let b = occurrence(ts.take(j + 1));
    crate::agenda::lemma_count_step(ts, p, i);
    if a == 1 {
        assert(uid_key(id, b).len() > id.len());
    } else {
        if uid_key(id, a) == uid_key(id, b) {
            assert(digits(a) =~= uid_key(id, a).skip(id.len() as int + 1));
            assert(digits(b) =~= uid_key(id, b).skip(id.len() as int + 1));
            lemma_digits_injective(a, b);
        }
    }
}

proof fn lemma_count_grows(ts: Seq<Task>, p: spec_fn(Task) -> bool, a: int, b: int)
    requires
        0 <= a <= b <= ts.len(),
    ensures
        count_of(ts.take(a), p) <= count_of(ts.take(b), p),
    decreases b - a,
{
    if a < b {
        lemma_count_grows(ts, p, a, b - 1);
        crate::agenda::lemma_count_step(ts, p, b - 1);
    }
}


/// Reading a text value left to right: how many of its commas separate
/// fields (a comma after a backslash is part of the text), and whether it
/// ends inside an escape.
pub open spec fn separators(s: Seq<char>) -> (nat, bool)
    decreases s.len(),
{
    if s.len() == 0 {
        (0, false)
    } else {
        let (n, pending) = separators(s.drop_last());
        let c = s.last();
        if pending {
            (n, false)
        } else if c == '\\' {
            (n, true)
        } else if c == ',' {
            (n + 1, false)
        } else {
            (n, false)
        }
    }
}

proof fn lemma_separators_concat(a: Seq<char>, b: Seq<char>)
    requires
        !separators(a).1,
    ensures
        separators(a + b) == (separators(a).0 + separators(b).0, separators(b).1),
    decreases b.len(),
{
    if b.len() == 0 {
        assert(a + b =~= a);
    } else {
        assert((a + b).drop_last() =~= a + b.drop_last());
        assert((a + b).last() == b.last());
        lemma_separators_concat(a, b.drop_last());
    }
}

proof fn lemma_separators_plain(s: Seq<char>)
    requires
        forall|i: int| 0 <= i < s.len() ==> s[i] != ',' && s[i] != '\\',
    ensures
        separators(s) == (0nat, false),
    decreases s.len(),
{
    if s.len() > 0 {
        lemma_separators_plain(s.drop_last());
    }
}

proof fn lemma_separators_escaped(s: Seq<char>)
    ensures
        separators(escaped(s)) == (0nat, false),
    decreases s.len(),
{
    if s.len() > 0 {
        lemma_separators_escaped(s.drop_last());
        let e = escape_char(s.last());
        reveal_with_fuel(separators, 3);
        assert(e.len() == 1 ==> e.drop_last() =~= Seq::<char>::empty());
        assert(e.len() == 2 ==> e.drop_last().drop_last() =~= Seq::<char>::empty());
        assert(separators(e) == (0nat, false));
        lemma_separators_concat(escaped(s.drop_last()), e);
    }
}

proof fn lemma_separators_joined(ws: Seq<Seq<char>>)
    requires
        ws.len() >= 1,
        forall|i: int| 0 <= i < ws.len() ==> #[trigger] separators(ws[i]) == (0nat, false),
    ensures
        separators(joined(ws, ","@)) == ((ws.len() - 1) as nat, false),
    decreases ws.len(),
{
    reveal_strlit(",");
    assert(","@ =~= seq![',']);
    if ws.len() > 1 {
        let d = ws.drop_last();
        assert forall|i: int| 0 <= i < d.len() implies #[trigger] separators(d[i]) == (0nat, false) by {
            assert(d[i] == ws[i]);
        }
        lemma_separators_joined(d);
        reveal_with_fuel(separators, 2);
        assert(seq![','].drop_last() =~= Seq::<char>::empty());
        lemma_separators_concat(joined(d, ","@), ","@);
        assert(separators(ws[ws.len() - 1]) == (0nat, false));
        lemma_separators_concat(joined(d, ","@) + ","@, ws.last());
    }
}

proof fn lemma_body_has_todo(ts: Seq<Task>, stamp: Seq<char>, k: int)
    requires
        0 <= k < ts.len(),
        exported(ts[k]),
    ensures
        forall|j: int| 0 <= j < todo_lines(ts[k], occurrence(ts.take(k + 1)), stamp).len() ==> body_lines(ts, stamp).contains(
            #[trigger] todo_lines(ts[k], occurrence(ts.take(k + 1)), stamp)[j],
        ),
    decreases ts.len(),
{
    let d = ts.drop_last();
    let head = body_lines(d, stamp);
    if k == ts.len() - 1 {
        assert(ts.take(k + 1) =~= ts);
        let tl = todo_lines(ts[k], occurrence(ts), stamp);
        assert(body_lines(ts, stamp) == head + tl);
        assert forall|j: int| 0 <= j < tl.len() implies body_lines(ts, stamp).contains(#[trigger] tl[j]) by {
            assert(body_lines(ts, stamp)[head.len() + j] == tl[j]);
        }
    } else {
        lemma_body_has_todo(d, stamp, k);
        assert(d.take(k + 1) =~= ts.take(k + 1));
        assert(d[k] == ts[k]);
        let tl = todo_lines(ts[k], occurrence(ts.take(k + 1)), stamp);
        let whole = body_lines(ts, stamp);
        assert(whole == head + (if exported(ts.last()) {
            todo_lines(ts.last(), occurrence(ts), stamp)
        } else {
            seq![]
        }));
        assert forall|j: int| 0 <= j < tl.len() implies whole.contains(#[trigger] tl[j]) by {
            assert(head.contains(tl[j]));
            let x = choose|x: int| 0 <= x < head.len() && head[x] == tl[j];
            assert(whole[x] == tl[j]);
        }
    }
}

/// Every tag of an exported task reaches the calendar: its VTODO carries
/// the line `CATEGORIES:` and then each tag, escaped, in order, joined with
/// commas; and that value has exactly one field per tag, since no comma
/// inside a tag survives unescaped.
pub proof fn law_categories_carry_every_tag(ts: Seq<Task>, now: Moment, k: int)
    requires
        0 <= k < ts.len(),
        exported(ts[k]),
        ts[k].tags@.len() > 0,
    ensures
        calendar_lines(ts, now).contains("CATEGORIES:"@ + joined(escaped_all(views(ts[k].tags@)), ","@)),
        separators("CATEGORIES:"@ + joined(escaped_all(views(ts[k].tags@)), ","@))
            == ((ts[k].tags@.len() - 1) as nat, false),
{
    let st = stamp_text(now);
    let tags = views(ts[k].tags@);
    let line = "CATEGORIES:"@ + joined(escaped_all(tags), ","@);
    lemma_body_has_todo(ts, st, k);
    let tl = todo_lines(ts[k], occurrence(ts.take(k + 1)), st);
    assert(tl[5] == line);
    assert(body_lines(ts, st).contains(tl[5]));
    let x = choose|x: int| 0 <= x < body_lines(ts, st).len() && body_lines(ts, st)[x] == line;
    assert(calendar_lines(ts, now)[3 + x] == line);
    let es = escaped_all(tags);
    assert forall|i: int| 0 <= i < es.len() implies #[trigger] separators(es[i]) == (0nat, false) by {
        lemma_separators_escaped(tags[i]);
    }
    lemma_separators_joined(es);
    reveal_strlit("CATEGORIES:");
    lemma_separators_plain("CATEGORIES:"@);
    lemma_separators_concat("CATEGORIES:"@, joined(es, ","@));
}

} // verus!
