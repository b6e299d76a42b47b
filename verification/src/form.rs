//! The add form and the edits it makes to the line. The line is the model:
//! every row of the form reads it back through the capture tokenizer and
//! writes into it by replacing the span the tokenizer claimed.

use vstd::prelude::*;

use crate::capture::{parts_chars, parts_from, parts_of, Part};
use crate::date::Date;
use crate::strs::{
    chars_of, good_spans, is_space, push_char, push_chars, slice_chars, spans, string_of,
    trailing_start, trim_end, word_at, word_spans,
};
use crate::text::{joined, push_joined_word};
use crate::date::iso_text;
use crate::keys::{typed_of, Code, Key, Typed};
use crate::capture::{captured, is_capture, later_days};
use crate::layout::{
    append_pieces, arrows_text, bold_of, caret_column, divider_text, field_pieces, ink_of, piece, pieces,
    plain_ink, push_piece, rule_char, spaces, spaces_string, string_from, sub0, widths, Ink, Piece,
};
use crate::model::Task;
use crate::theme::Theme;
use crate::strs::{padded, push_str};
use crate::ui::{
    cell_text, columns, display_width, enter_text, radio_text, radios, repeated, shorten, shorten_text, year_cell,
    DatePart, Glyphs,
};
use crate::ui::{
    backed, deleted_after, field_applied, field_closed, field_stepped, typed_in, went_end, went_home,
    went_left, went_right, Input, Purpose,
};

verus! {

/// One word per span, and each span is the next word of `s`.
pub proof fn lemma_parts_follow_spans(
    s: Seq<char>,
    sp: Seq<(int, int)>,
    i: int,
    dated: bool,
    today: Date,
)
    requires
        0 <= i <= sp.len(),
    ensures
        parts_from(s, sp, i, dated, today).len() == sp.len() - i,
        forall|k: int|
            0 <= k < sp.len() - i ==> (#[trigger] parts_from(s, sp, i, dated, today)[k]).0 == sp[i
                + k],
    decreases sp.len() - i,
{
    let ps = parts_from(s, sp, i, dated, today);
    if i < sp.len() {
        if !dated && crate::capture::is_date_word(word_at(s, sp[i]), today) {
            if i + 1 < sp.len() && crate::date::clock_parse(word_at(s, sp[i + 1])) is Some {
                lemma_parts_follow_spans(s, sp, i + 2, true, today);
                let rest = parts_from(s, sp, i + 2, true, today);
                assert forall|k: int| 0 <= k < sp.len() - i implies (#[trigger] ps[k]).0 == sp[i
                    + k] by {
                    if k >= 2 {
                        assert(ps[k] == rest[k - 2]);
                    }
                }
            } else {
                lemma_parts_follow_spans(s, sp, i + 1, true, today);
                let rest = parts_from(s, sp, i + 1, true, today);
                assert forall|k: int| 0 <= k < sp.len() - i implies (#[trigger] ps[k]).0 == sp[i
                    + k] by {
                    if k >= 1 {
                        assert(ps[k] == rest[k - 1]);
                    }
                }
            }
        } else {
            lemma_parts_follow_spans(s, sp, i + 1, dated, today);
            let rest = parts_from(s, sp, i + 1, dated, today);
            assert forall|k: int| 0 <= k < sp.len() - i implies (#[trigger] ps[k]).0 == sp[i + k] by {
                if k >= 1 {
                    assert(ps[k] == rest[k - 1]);
                }
            }
        }
    }
}

/// The parts of `s` lie in order, inside `s`, each followed by a space or
/// the end.
pub proof fn lemma_parts_good(s: Seq<char>, today: Date)
    ensures
        good_spans(s, parts_of(s, today).map_values(|p: ((int, int), Part)| p.0), 0),
{
    crate::strs::lemma_spans_good(s);
    lemma_parts_follow_spans(s, spans(s), 0, false, today);
    assert(parts_of(s, today).map_values(|p: ((int, int), Part)| p.0) =~= spans(s));
}

/// A word with nothing to stand in for.
pub open spec fn nonempty(to: Option<Seq<char>>) -> Option<Seq<char>> {
    match to {
        Some(t) => if t.len() > 0 {
            Some(t)
        } else {
            None
        },
        None => None,
    }
}

/// `w` on the end of `s`, one space between, and nothing but `w` when `s`
/// is blank.
pub open spec fn appended(s: Seq<char>, w: Seq<char>) -> Seq<char> {
    if trim_end(s).len() == 0 {
        w
    } else {
        trim_end(s) + seq![' '] + w
    }
}

/// Whether any part is one of `wanted`.
pub open spec fn any_wanted(ps: Seq<((int, int), Part)>, wanted: Seq<Part>) -> bool {
    exists|k: int| 0 <= k < ps.len() && wanted.contains(#[trigger] ps[k].1)
}

/// The rest of an edit, from the part `ps[0]` on with `at` the first
/// character not yet copied: the first wanted part is replaced by `to` when
/// there is one, and every other wanted part goes with one adjacent space,
/// the following one where there is one and the preceding one otherwise.
pub open spec fn edit_from(
    s: Seq<char>,
    ps: Seq<((int, int), Part)>,
    wanted: Seq<Part>,
    to: Option<Seq<char>>,
    at: int,
    first: bool,
) -> Seq<char>
    decreases ps.len(),
{
    if ps.len() == 0 {
        s.subrange(at, s.len() as int)
    } else if !wanted.contains(ps[0].1) {
        edit_from(s, ps.drop_first(), wanted, to, at, first)
    } else {
        let r = ps[0].0;
        let keep = s.subrange(at, r.0);
        if first && to is Some {
            keep + to->0 + edit_from(s, ps.drop_first(), wanted, to, r.1, false)
        } else {
            let trailing = r.1 < s.len() && s[r.1] == ' ';
            let kept = if !trailing && keep.len() > 0 && keep.last() == ' ' {
                keep.drop_last()
            } else {
                keep
            };
            kept + edit_from(
                s,
                ps.drop_first(),
                wanted,
                to,
                if trailing {
                    r.1 + 1
                } else {
                    r.1
                },
                false,
            )
        }
    }
}

/// The line with whatever the tokenizer claims as one of `wanted` replaced
/// by `to`, or removed when `to` is absent or empty; with nothing claimed, a
/// word is added on the end.
pub open spec fn set_parts_text(s: Seq<char>, today: Date, wanted: Seq<Part>, to: Option<Seq<char>>) -> Seq<char> {
    let ps = parts_of(s, today);
    if any_wanted(ps, wanted) {
        edit_from(s, ps, wanted, nonempty(to), 0, true)
    } else {
        match nonempty(to) {
            None => s,
            Some(w) => appended(s, w),
        }
    }
}

proof fn lemma_edit_untouched(
    s: Seq<char>,
    ps: Seq<((int, int), Part)>,
    wanted: Seq<Part>,
    to: Option<Seq<char>>,
    at: int,
    first: bool,
)
    requires
        !any_wanted(ps, wanted),
    ensures
        edit_from(s, ps, wanted, to, at, first) == s.subrange(at, s.len() as int),
    decreases ps.len(),
{
    if ps.len() > 0 {
        assert(!wanted.contains(ps[0].1));
        assert(!any_wanted(ps.drop_first(), wanted)) by {
            if any_wanted(ps.drop_first(), wanted) {
                let k = choose|k: int| 0 <= k < ps.drop_first().len() && wanted.contains(#[trigger] ps.drop_first()[k].1);
                assert(ps[k + 1] == ps.drop_first()[k]);
            }
        }
        lemma_edit_untouched(s, ps.drop_first(), wanted, to, at, first);
    }
}

fn wants(wanted: &[Part], p: Part) -> (r: bool)
    ensures
        r == wanted@.contains(p),
{
    let mut i: usize = 0;
    while i < wanted.len()
        invariant
            i <= wanted@.len(),
            forall|k: int| 0 <= k < i ==> wanted@[k] != p,
        decreases wanted@.len() - i,
    {
        if wanted[i] == p {
            return true;
        }
        i += 1;
    }
    false
}

/// `s` with `w` on the end, as `appended` says.
fn append_word(v: &Vec<char>, w: &Vec<char>) -> (r: String)
    ensures
        r@ == appended(v@, w@),
{
    let n = trailing_start(v);
    if n == 0 {
        string_of(w)
    } else {
        let mut out = string_of(&slice_chars(v, 0, n));
        push_char(&mut out, ' ');
        push_chars(&mut out, w);
        out
    }
}

/// Replaces whatever the tokenizer claims as one of `wanted` with `to`,
/// and removes it when `to` is absent or empty. The form never guesses
/// where a field is: it asks the same tokenizer the preview reads.
pub fn set_parts(text: &str, today: Date, wanted: &[Part], to: Option<&str>) -> (r: String)
    requires
        today.wf(),
    ensures
        r@ == set_parts_text(text@, today, wanted@, match to {
            Some(t) => Some(t@),
            None => None,
        }),
{
    let v = chars_of(text);
    let ps = parts_chars(&v, today);
    let ghost gp = parts_of(v@, today);
    let ghost tov: Option<Seq<char>> = match to {
        Some(t) => Some(t@),
        None => None,
    };
    let word: Option<Vec<char>> = match to {
        Some(t) => {
            let tv = chars_of(t);
            if tv.len() > 0 {
                Some(tv)
            } else {
                None
            }
        },
        None => None,
    };
    assert(match word {
        Some(w) => nonempty(tov) == Some(w@),
        None => nonempty(tov) is None,
    });
    proof {
        lemma_parts_good(v@, today);
    }
    let ghost sp = gp.map_values(|p: ((int, int), Part)| p.0);
    let mut out = String::new();
    let mut at: usize = 0;
    let mut first = true;
    let mut i: usize = 0;
    assert(gp.skip(0) =~= gp);
    while i < ps.len()
        invariant
            v@ == text@,
            crate::capture::part_spans(ps@) == gp,
            gp == parts_of(v@, today),
            sp == gp.map_values(|p: ((int, int), Part)| p.0),
            good_spans(v@, sp, 0),
            i <= gp.len(),
            at <= v@.len(),
            i < gp.len() ==> at <= gp[i as int].0.0,
            first <==> !(exists|k: int| 0 <= k < i && wanted@.contains(#[trigger] gp[k].1)),
            match word {
                Some(w) => nonempty(tov) == Some(w@),
                None => nonempty(tov) is None,
            },
            out@ + edit_from(v@, gp.skip(i as int), wanted@, nonempty(tov), at as int, first)
                == edit_from(v@, gp, wanted@, nonempty(tov), 0, true),
        decreases gp.len() - i,
    {
        let ((a, b), part) = ps[i];
        assert(gp[i as int] == ((a as int, b as int), part));
        assert(sp[i as int] == (a as int, b as int));
        let ghost rest = gp.skip(i as int);
        assert(rest[0] == gp[i as int]);
        assert(rest.drop_first() =~= gp.skip(i + 1));
        if i + 1 < ps.len() {
            assert(sp[i + 1] == gp[i + 1].0);
            assert(sp[i as int].1 < sp[i + 1].0);
        }
        if wants(wanted, part) {
            let keep = slice_chars(&v, at, a);
            match (&word, first) {
                (Some(w), true) => {
                    push_chars(&mut out, &keep);
                    push_chars(&mut out, w);
                    at = b;
                },
                _ => {
                    let trailing = b < v.len() && v[b] == ' ';
                    if !trailing && keep.len() > 0 && keep[keep.len() - 1] == ' ' {
                        let cut = slice_chars(&keep, 0, keep.len() - 1);
                        assert(cut@ =~= keep@.drop_last());
                        push_chars(&mut out, &cut);
                    } else {
                        push_chars(&mut out, &keep);
                    }
                    at = if trailing {
                        b + 1
                    } else {
                        b
                    };
                },
            }
            first = false;
        }
        i += 1;
        proof {
            if first {
                assert forall|k: int| 0 <= k < i implies !wanted@.contains(#[trigger] gp[k].1) by {
                    if k < i - 1 {
                    }
                }
            }
        }
    }
    let tail = slice_chars(&v, at, v.len());
    push_chars(&mut out, &tail);
    assert(gp.skip(gp.len() as int) =~= Seq::<((int, int), Part)>::empty());
    if first {
        assert(!any_wanted(gp, wanted@));
        proof {
            lemma_edit_untouched(v@, gp, wanted@, nonempty(tov), 0, true);
        }
        assert(out@ =~= v@);
        match word {
            None => {
                return out;
            },
            Some(w) => {
                return append_word(&v, &w);
            },
        }
    }
    assert(any_wanted(gp, wanted@));
    out
}

/// The first part from `k` on that is a `want`.
pub open spec fn first_of_kind(ps: Seq<((int, int), Part)>, want: Part, k: int) -> Option<int>
    decreases ps.len() - k,
{
    if k < 0 || k >= ps.len() {
        None
    } else if ps[k].1 == want {
        Some(k)
    } else {
        first_of_kind(ps, want, k + 1)
    }
}

/// What the line says for one field, read back through the tokenizer.
pub open spec fn part_of_text(s: Seq<char>, today: Date, want: Part) -> Option<Seq<char>> {
    let ps = parts_of(s, today);
    match first_of_kind(ps, want, 0) {
        Some(k) => Some(word_at(s, ps[k].0)),
        None => None,
    }
}

/// Every word of `s` the tokenizer calls a `want`, in order.
pub open spec fn words_of_kind(s: Seq<char>, ps: Seq<((int, int), Part)>, want: Part) -> Seq<Seq<char>>
    decreases ps.len(),
{
    if ps.len() == 0 {
        seq![]
    } else if ps.last().1 == want {
        words_of_kind(s, ps.drop_last(), want).push(word_at(s, ps.last().0))
    } else {
        words_of_kind(s, ps.drop_last(), want)
    }
}

/// Every tag in the line, space separated and with their `#`.
pub open spec fn tags_of_text(s: Seq<char>, today: Date) -> Seq<char> {
    joined(words_of_kind(s, parts_of(s, today), Part::Tag), seq![' '])
}

/// A time goes directly after the date, the one place the tokenizer reads
/// one; with no date it goes on the end.
pub open spec fn after_date_text(s: Seq<char>, today: Date, time: Seq<char>) -> Seq<char> {
    let ps = parts_of(s, today);
    if time.len() == 0 {
        s
    } else {
        match first_of_kind(ps, Part::Date, 0) {
            Some(k) => s.take(ps[k].0.1) + seq![' '] + time + s.skip(ps[k].0.1),
            None => trim_end(s) + seq![' '] + time,
        }
    }
}

/// A tag as typed, with its `#` put back when it was left off.
pub open spec fn hashed(w: Seq<char>) -> Seq<char> {
    if w.len() > 0 && w[0] == '#' {
        w
    } else {
        seq!['#'] + w
    }
}

/// The tags typed into the tag row, each a word of its own.
pub open spec fn typed_tags(t: Seq<char>) -> Seq<Seq<char>> {
    spans(t).map_values(|sp: (int, int)| hashed(word_at(t, sp)))
}

/// The tags are a set rather than a token: the whole set is cleared and
/// written back as one run of words on the end.
pub open spec fn set_tags_text(s: Seq<char>, today: Date, tags: Seq<char>) -> Seq<char> {
    let written = joined(typed_tags(tags), seq![' ']);
    let cleared = set_parts_text(s, today, seq![Part::Tag], None);
    if written.len() == 0 {
        cleared
    } else {
        appended(cleared, written)
    }
}

fn first_kind(ps: &Vec<((usize, usize), Part)>, want: Part) -> (r: Option<usize>)
    ensures
        match r {
            Some(k) => first_of_kind(crate::capture::part_spans(ps@), want, 0) == Some(k as int)
                && k < ps@.len(),
            None => first_of_kind(crate::capture::part_spans(ps@), want, 0) is None,
        },
{
    let ghost gp = crate::capture::part_spans(ps@);
    let mut k: usize = 0;
    while k < ps.len()
        invariant
            k <= ps@.len(),
            gp == crate::capture::part_spans(ps@),
            first_of_kind(gp, want, 0) == first_of_kind(gp, want, k as int),
        decreases ps@.len() - k,
    {
        assert(gp[k as int].1 == ps@[k as int].1);
        if ps[k].1 == want {
            return Some(k);
        }
        k += 1;
    }
    None
}

/// What the line currently says for one field.
pub fn part_of(text: &str, today: Date, want: Part) -> (r: Option<String>)
    requires
        today.wf(),
    ensures
        match r {
            Some(w) => part_of_text(text@, today, want) == Some(w@),
            None => part_of_text(text@, today, want) is None,
        },
{
    let v = chars_of(text);
    let ps = parts_chars(&v, today);
    proof {
        lemma_parts_good(v@, today);
    }
    match first_kind(&ps, want) {
        Some(k) => {
            let ((a, b), _) = ps[k];
            let ghost gp = parts_of(v@, today);
            assert(gp[k as int].0 == (a as int, b as int));
            assert(gp.map_values(|p: ((int, int), Part)| p.0)[k as int] == gp[k as int].0);
            Some(string_of(&slice_chars(&v, a, b)))
        },
        None => None,
    }
}

/// Every tag in the line, space separated and with their `#`.
pub fn tags_of(text: &str, today: Date) -> (r: String)
    requires
        today.wf(),
    ensures
        r@ == tags_of_text(text@, today),
{
    let v = chars_of(text);
    let ps = parts_chars(&v, today);
    let ghost gp = parts_of(v@, today);
    proof {
        lemma_parts_good(v@, today);
    }
    let ghost sp = gp.map_values(|p: ((int, int), Part)| p.0);
    let mut out = String::new();
    let mut count: usize = 0;
    let mut i: usize = 0;
    assert(gp.take(0) =~= Seq::<((int, int), Part)>::empty());
    while i < ps.len()
        invariant
            v@ == text@,
            crate::capture::part_spans(ps@) == gp,
            gp == parts_of(v@, today),
            sp == gp.map_values(|p: ((int, int), Part)| p.0),
            good_spans(v@, sp, 0),
            i <= gp.len(),
            count == words_of_kind(v@, gp.take(i as int), Part::Tag).len(),
            count <= i,
            out@ == joined(words_of_kind(v@, gp.take(i as int), Part::Tag), seq![' ']),
        decreases gp.len() - i,
    {
        let ((a, b), part) = ps[i];
        assert(gp[i as int] == ((a as int, b as int), part));
        assert(sp[i as int] == (a as int, b as int));
        assert(gp.take(i + 1).drop_last() =~= gp.take(i as int));
        assert(gp.take(i + 1).last() == gp[i as int]);
        if part == Part::Tag {
            let w = string_of(&slice_chars(&v, a, b));
            proof {
                reveal_strlit(" ");
                assert(" "@ =~= seq![' ']);
            }
            push_joined_word(
                &mut out,
                Ghost(words_of_kind(v@, gp.take(i as int), Part::Tag)),
                count,
                " ",
                w.as_str(),
            );
            count += 1;
        }
        i += 1;
    }
    assert(gp.take(gp.len() as int) =~= gp);
    out
}

/// Puts `time` directly after the line's date.
pub fn after_date(text: &str, today: Date, time: &str) -> (r: String)
    requires
        today.wf(),
    ensures
        r@ == after_date_text(text@, today, time@),
{
    let v = chars_of(text);
    let t = chars_of(time);
    if t.len() == 0 {
        return string_of(&v);
    }
    let ps = parts_chars(&v, today);
    proof {
        lemma_parts_good(v@, today);
    }
    match first_kind(&ps, Part::Date) {
        Some(k) => {
            let ((a, b), _) = ps[k];
            let ghost gp = parts_of(v@, today);
            assert(gp[k as int].0 == (a as int, b as int));
            assert(gp.map_values(|p: ((int, int), Part)| p.0)[k as int] == gp[k as int].0);
            let mut out = string_of(&slice_chars(&v, 0, b));
            push_char(&mut out, ' ');
            push_chars(&mut out, &t);
            push_chars(&mut out, &slice_chars(&v, b, v.len()));
            assert(slice_chars_view(v@, b as int) == v@.skip(b as int));
            assert(out@ =~= after_date_text(text@, today, time@));
            out
        },
        None => {
            let n = trailing_start(&v);
            let mut out = string_of(&slice_chars(&v, 0, n));
            push_char(&mut out, ' ');
            push_chars(&mut out, &t);
            out
        },
    }
}

pub open spec fn slice_chars_view(v: Seq<char>, b: int) -> Seq<char> {
    v.subrange(b, v.len() as int)
}

/// Clears every tag in the line and writes the typed ones back on the end.
pub fn set_tags(text: &str, today: Date, tags: &str) -> (r: String)
    requires
        today.wf(),
    ensures
        r@ == set_tags_text(text@, today, tags@),
{
    let tv = chars_of(tags);
    let sp = word_spans(&tv);
    let ghost words = typed_tags(tv@);
    let mut written = String::new();
    let mut i: usize = 0;
    while i < sp.len()
        invariant
            tv@ == tags@,
            crate::strs::spans_view(sp@) == spans(tv@),
            good_spans(tv@, spans(tv@), 0),
            words == typed_tags(tv@),
            i <= sp@.len(),
            written@ == joined(words.take(i as int), seq![' ']),
        decreases sp@.len() - i,
    {
        let (a, b) = sp[i];
        assert(spans(tv@)[i as int] == (a as int, b as int));
        let w = slice_chars(&tv, a, b);
        let mut word = String::new();
        if w[0] != '#' {
            push_char(&mut word, '#');
        }
        push_chars(&mut word, &w);
        assert(word@ =~= hashed(w@));
        assert(words[i as int] == hashed(w@));
        proof {
            reveal_strlit(" ");
            assert(" "@ =~= seq![' ']);
        }
        assert(words.take(i + 1) =~= words.take(i as int).push(word@));
        push_joined_word(&mut written, Ghost(words.take(i as int)), i, " ", word.as_str());
        i += 1;
    }
    assert(words.take(sp@.len() as int) =~= words);
    let tagv: Vec<Part> = vec![Part::Tag];
    assert(tagv@ =~= seq![Part::Tag]);
    let cleared = set_parts(text, today, tagv.as_slice(), None);
    if i == 0 {
        assert(words.len() == 0);
        assert(written@.len() == 0);
        return cleared;
    }
    proof {
        lemma_joined_nonempty(words);
    }
    let cv = chars_of(cleared.as_str());
    let wv = chars_of(written.as_str());
    append_word(&cv, &wv)
}

proof fn lemma_joined_nonempty(ws: Seq<Seq<char>>)
    requires
        ws.len() > 0,
        forall|k: int| 0 <= k < ws.len() ==> (#[trigger] ws[k]).len() > 0,
    ensures
        joined(ws, seq![' ']).len() > 0,
    decreases ws.len(),
{
    if ws.len() > 1 {
        lemma_joined_nonempty(ws.drop_last());
    }
}

/// Which control has the keyboard: the title, the five rows of the form, and
/// its two buttons.
#[derive(Debug, Clone, Copy, PartialEq, Eq, Structural)]
pub enum Field {
    Title,
    Due,
    Time,
    Priority,
    Tags,
    /// Which list a new task goes to, while more than one is open.
    List,
    Cancel,
    Create,
}

pub open spec fn field_label(f: Field) -> Seq<char> {
    match f {
        Field::Due => seq!['D', 'u', 'e'],
        Field::Time => seq!['T', 'i', 'm', 'e'],
        Field::Priority => seq!['P', 'r', 'i', 'o', 'r', 'i', 't', 'y'],
        Field::Tags => seq!['T', 'a', 'g', 's'],
        Field::List => seq!['L', 'i', 's', 't'],
        _ => seq![],
    }
}

impl Field {
    pub fn label(self) -> (r: &'static str)
        ensures
            r@ == field_label(self),
    {
        proof {
            reveal_strlit("");
            reveal_strlit("Due");
            reveal_strlit("Time");
            reveal_strlit("Priority");
            reveal_strlit("Tags");
            reveal_strlit("List");
        }
        match self {
            Field::Title => "",
            Field::Due => "Due",
            Field::Time => "Time",
            Field::Priority => "Priority",
            Field::Tags => "Tags",
            Field::List => "List",
            Field::Cancel => "",
            Field::Create => "",
        }
    }

    /// Whether it is typed into rather than chosen from.
    pub fn typed(self) -> (r: bool)
        ensures
            r == (self == Field::Time || self == Field::Tags),
    {
        match self {
            Field::Time | Field::Tags => true,
            _ => false,
        }
    }
}

/// The tab order: the time row only while the line has a date, since the
/// format cannot hold a time without one.
/// The list row only while more than one list is open: with one there is
/// nothing to choose.
pub open spec fn order_of(text: Seq<char>, today: Date, several: bool) -> Seq<Field> {
    seq![Field::Title, Field::Due] + (if part_of_text(text, today, Part::Date) is Some {
        seq![Field::Time]
    } else {
        seq![]
    }) + seq![Field::Priority, Field::Tags] + (if several {
        seq![Field::List]
    } else {
        seq![]
    }) + seq![Field::Cancel, Field::Create]
}

/// Where `f` stands in `order`, or 0 when it is not there.
pub open spec fn position(order: Seq<Field>, f: Field, k: int) -> int
    decreases order.len() - k,
{
    if k < 0 || k >= order.len() {
        0
    } else if order[k] == f {
        k
    } else {
        position(order, f, k + 1)
    }
}

/// `by` steps round a ring of `n`, from `at`.
pub open spec fn round(at: int, by: int, n: int) -> int {
    (at + by) % n
}

pub open spec fn named(d: Date) -> Seq<char> {
    seq!['@'] + iso_text(d)
}

/// A word with its leading `@`s taken off.
pub open spec fn without_ats(w: Seq<char>) -> Seq<char>
    decreases w.len(),
{
    if w.len() > 0 && w[0] == '@' {
        without_ats(w.drop_first())
    } else {
        w
    }
}

/// The due row: none, today, tomorrow, the line's own date when it is
/// neither, and the picker.
pub open spec fn due_choices(text: Seq<char>, today: Date, tomorrow: Date) -> Seq<(Seq<char>, bool)> {
    let has = part_of_text(text, today, Part::Date);
    let own = match has {
        Some(w) => if w != named(today) && w != named(tomorrow) {
            seq![(without_ats(w), true)]
        } else {
            seq![]
        },
        None => seq![],
    };
    seq![
        (seq!['n', 'o', 'n', 'e'], has is None),
        (seq!['t', 'o', 'd', 'a', 'y'], has == Some(named(today))),
        (seq!['t', 'o', 'm', 'o', 'r', 'r', 'o', 'w'], has == Some(named(tomorrow))),
    ] + own + seq![(seq!['p', 'i', 'c', 'k'], false)]
}

pub open spec fn priority_choices(text: Seq<char>, today: Date) -> Seq<(Seq<char>, bool)> {
    let has = part_of_text(text, today, Part::Priority);
    seq![
        (seq!['n', 'o', 'n', 'e'], has is None),
        (seq!['h', 'i', 'g', 'h'], has == Some(seq!['!', 'h', 'i', 'g', 'h'])),
        (seq!['m', 'e', 'd'], has == Some(seq!['!', 'm', 'e', 'd'])),
        (seq!['l', 'o', 'w'], has == Some(seq!['!', 'l', 'o', 'w'])),
    ]
}

/// The options on a row and which one is on, read off the line every time.
/// The list row: every open list, and the one the line's `$word` names on;
/// with no `$word`, the first.
pub open spec fn list_choices(text: Seq<char>, today: Date, names: Seq<Seq<char>>) -> Seq<(Seq<char>, bool)> {
    Seq::new(
        names.len(),
        |i: int|
            (names[i], match crate::live::list_word(text, today) {
                Some(w) => crate::live::list_named(w, names[i]),
                None => i == 0,
            }),
    )
}

pub open spec fn choices_of(
    f: Field,
    text: Seq<char>,
    today: Date,
    tomorrow: Date,
    names: Seq<Seq<char>>,
) -> Seq<(Seq<char>, bool)> {
    match f {
        Field::Due => due_choices(text, today, tomorrow),
        Field::Priority => priority_choices(text, today),
        Field::List => list_choices(text, today, names),
        _ => seq![],
    }
}

/// A list's name with its `.md` endings taken off.
pub open spec fn without_md(w: Seq<char>) -> Seq<char>
    decreases w.len(),
{
    if w.len() >= 3 && w.subrange(w.len() - 3, w.len() as int) == seq!['.', 'm', 'd'] {
        without_md(w.take(w.len() - 3))
    } else {
        w
    }
}

pub open spec fn choice_views(v: Seq<(String, bool)>) -> Seq<(Seq<char>, bool)> {
    v.map_values(|c: (String, bool)| (c.0@, c.1))
}

/// The line once the choice `label` on row `f` is written into it.
pub open spec fn chosen_text(f: Field, label: Seq<char>, text: Seq<char>, today: Date, tomorrow: Date) -> Seq<char> {
    match f {
        Field::Due => if label == seq!['n', 'o', 'n', 'e'] {
            set_parts_text(text, today, seq![Part::Date, Part::Time], None)
        } else if label == seq!['t', 'o', 'd', 'a', 'y'] {
            set_parts_text(text, today, seq![Part::Date], Some(named(today)))
        } else if label == seq!['t', 'o', 'm', 'o', 'r', 'r', 'o', 'w'] {
            set_parts_text(text, today, seq![Part::Date], Some(named(tomorrow)))
        } else if label == seq!['p', 'i', 'c', 'k'] {
            text
        } else {
            set_parts_text(text, today, seq![Part::Date], Some(seq!['@'] + label))
        },
        Field::Priority => if label == seq!['n', 'o', 'n', 'e'] {
            set_parts_text(text, today, seq![Part::Priority], None)
        } else {
            set_parts_text(text, today, seq![Part::Priority], Some(seq!['!'] + label))
        },
        Field::List => set_parts_text(text, today, seq![Part::List], Some(seq!['$'] + without_md(label))),
        _ => text,
    }
}

/// What a typed row holds when the focus lands on it, and the line without
/// that field.
pub open spec fn seeded(f: Field, text: Seq<char>, today: Date) -> (Seq<char>, Seq<char>) {
    match f {
        Field::Time => (
            match part_of_text(text, today, Part::Time) {
                Some(w) => w,
                None => seq![],
            },
            set_parts_text(text, today, seq![Part::Time], None),
        ),
        Field::Tags => (tags_of_text(text, today), set_parts_text(text, today, seq![Part::Tag], None)),
        _ => (seq![], text),
    }
}

/// The line rebuilt from `base` and what is being typed into the row.
pub open spec fn synced(f: Field, base: Seq<char>, typing: Seq<char>, today: Date) -> Seq<char> {
    match f {
        Field::Time => after_date_text(base, today, crate::strs::trim(typing)),
        Field::Tags => set_tags_text(base, today, typing),
        _ => base,
    }
}

/// The add screen. The line is the model: every row is a view of the one
/// string, read through the capture tokenizer and written back into it.
pub struct Form {
    pub input: Input,
    pub focus: Field,
    today: Date,
    tomorrow: Date,
    /// What is being typed into `Time` or `Tags`, seeded from the line when
    /// the focus lands there.
    typing: String,
    /// The line without whatever the focused typed row owns.
    base: String,
    /// The open lists, by file name: the list row's options.
    lists: Vec<String>,
}

/// The form `a` opens: the line `a` puts in the box, the focus on the
/// title, and nothing typed into a row yet.
pub open spec fn opened_form(r: Form, today: Date, lists: Seq<Seq<char>>) -> bool {
    &&& crate::ui::opened_adding(r.line(), today)
    &&& r.list_names() == lists
    &&& r.focused() == Field::Title
    &&& r.day() == today
    &&& (r.next_day().number() == today.number() + 1 || (r.next_day() == today && today.number() + 1
        > crate::date::last_day_number()))
    &&& r.typing_text() == Seq::<char>::empty()
    &&& r.base_text() == Seq::<char>::empty()
}

impl Form {
    pub closed spec fn day(self) -> Date {
        self.today
    }

    /// The input box the form is a view of.
    pub closed spec fn line(self) -> Input {
        self.input
    }

    pub closed spec fn focused(self) -> Field {
        self.focus
    }

    pub closed spec fn next_day(self) -> Date {
        self.tomorrow
    }

    pub closed spec fn typing_text(self) -> Seq<char> {
        self.typing@
    }

    pub closed spec fn base_text(self) -> Seq<char> {
        self.base@
    }

    /// The open lists the list row offers.
    pub closed spec fn list_names(self) -> Seq<Seq<char>> {
        crate::live::names_view(self.lists@)
    }

    pub closed spec fn wf(self) -> bool {
        &&& self.input.wf()
        &&& self.day().wf()
        &&& self.next_day().wf()
    }

    pub closed spec fn text(self) -> Seq<char> {
        self.input.text@
    }

    /// The line the form is a view of.
    pub fn input(&self) -> (r: &Input)
        ensures
            *r == self.line(),
    {
        &self.input
    }

    /// The day the form resolves words like `tomorrow` against.
    pub fn today(&self) -> (r: Date)
        ensures
            r == self.day(),
    {
        self.today
    }

    /// The pane the form needs; under it the one-line box opens instead.
    pub fn fits(width: u16, height: u16) -> (r: bool)
        ensures
            r == (height >= 15 && width >= 40),
    {
        height >= 15 && width >= 40
    }

    pub fn adding(today: Date, lists: &[String]) -> (r: Form)
        requires
            today.wf(),
        ensures
            r.wf(),
            opened_form(r, today, crate::live::names_view(lists@)),
    {
        let tomorrow = match today.add_days(1) {
            Some(d) => d,
            None => today,
        };
        let mut names: Vec<String> = Vec::new();
        let mut k: usize = 0;
        while k < lists.len()
            invariant
                k <= lists@.len(),
                crate::live::names_view(names@) == crate::live::names_view(lists@).take(k as int),
            decreases lists@.len() - k,
        {
            let ghost before = crate::live::names_view(names@);
            names.push(string_from(lists[k].as_str()));
            assert(crate::live::names_view(names@) =~= before.push(lists@[k as int]@));
            assert(crate::live::names_view(lists@).take(k + 1) =~= crate::live::names_view(lists@).take(k as int).push(lists@[k as int]@));
            k += 1;
        }
        assert(crate::live::names_view(lists@).take(lists@.len() as int) =~= crate::live::names_view(lists@));
        Form {
            input: Input::adding(today),
            focus: Field::Title,
            today,
            tomorrow,
            typing: String::new(),
            base: String::new(),
            lists: names,
        }
    }

    /// The tab order, with the rows that have nothing to offer left out.
    pub fn order(&self) -> (r: Vec<Field>)
        requires
            self.wf(),
        ensures
            r@ == order_of(self.text(), self.day(), self.list_names().len() > 1),
    {
        let mut out: Vec<Field> = Vec::new();
        out.push(Field::Title);
        out.push(Field::Due);
        if part_of(self.input.text.as_str(), self.today, Part::Date).is_some() {
            out.push(Field::Time);
        }
        out.push(Field::Priority);
        out.push(Field::Tags);
        if self.lists.len() > 1 {
            out.push(Field::List);
        }
        out.push(Field::Cancel);
        out.push(Field::Create);
        assert(out@ =~= order_of(self.text(), self.day(), self.list_names().len() > 1));
        out
    }

    fn seed(&mut self)
        requires
            old(self).wf(),
        ensures
            final(self).wf(),
            final(self).input == old(self).input,
            final(self).focus == old(self).focus,
            final(self).day() == old(self).day(),
            final(self).next_day() == old(self).next_day(),
            final(self).list_names() == old(self).list_names(),
            (final(self).typing_text(), final(self).base_text()) == seeded(
                old(self).focus,
                old(self).text(),
                old(self).day(),
            ),
    {
        let text = self.input.text.as_str();
        match self.focus {
            Field::Time => {
                self.typing = match part_of(text, self.today, Part::Time) {
                    Some(w) => w,
                    None => String::new(),
                };
                let timev: Vec<Part> = vec![Part::Time];
                assert(timev@ =~= seq![Part::Time]);
                self.base = set_parts(text, self.today, timev.as_slice(), None);
            },
            Field::Tags => {
                self.typing = tags_of(text, self.today);
                let tagv: Vec<Part> = vec![Part::Tag];
                assert(tagv@ =~= seq![Part::Tag]);
                self.base = set_parts(text, self.today, tagv.as_slice(), None);
            },
            _ => {
                self.typing = String::new();
                self.base = self.input.text.clone();
            },
        }
    }

    fn step_focus(&mut self, by: isize)
        requires
            old(self).wf(),
            -8 <= by <= 8,
        ensures
            final(self).wf(),
            final(self).input == old(self).input,
            final(self).day() == old(self).day(),
            final(self).next_day() == old(self).next_day(),
            final(self).list_names() == old(self).list_names(),
            ({
                let order = order_of(old(self).text(), old(self).day(), old(self).list_names().len() > 1);
                final(self).focus == order[round(position(order, old(self).focus, 0), by as int, order.len() as int)]
            }),
            (final(self).typing_text(), final(self).base_text()) == seeded(
                final(self).focus,
                old(self).text(),
                old(self).day(),
            ),
    {
        let order = self.order();
        let ghost go = order@;
        let mut at: usize = 0;
        while at < order.len() && order[at] != self.focus
            invariant
                go == order@,
                go == order_of(self.text(), self.day(), self.list_names().len() > 1),
                at <= go.len(),
                position(go, self.focus, 0) == position(go, self.focus, at as int),
            decreases go.len() - at,
        {
            at += 1;
        }
        let n = order.len();
        assert(6 <= n <= 8);
        let pos: usize = if at < n { at } else { 0 };
        assert(pos == position(go, self.focus, 0));
        let shifted = (pos as isize) + by + 2 * (n as isize);
        let next = (shifted as usize) % n;
        proof {
            let sh: int = shifted as int;
            let nn: int = n as int;
            assert(next as int == sh % nn);
            assert(sh % nn == (pos as int + by as int) % nn) by (nonlinear_arith)
                requires
                    sh == pos as int + by as int + 2 * nn,
                    nn > 0,
            {
            }
        }
        self.focus = order[next];
        self.seed();
    }

    /// The options on the focused row, and which one is on.
    pub fn choices(&self) -> (r: Vec<(String, bool)>)
        requires
            self.wf(),
        ensures
            choice_views(r@) == choices_of(self.focused(), self.text(), self.day(), self.next_day(), self.list_names()),
    {
        self.choices_for(self.focus)
    }

    /// What is being typed into the focused row right now.
    pub fn typed_text(&self) -> (r: String)
        ensures
            r@ == self.typing_text(),
    {
        self.typing.clone()
    }

    pub fn choices_for(&self, field: Field) -> (r: Vec<(String, bool)>)
        requires
            self.wf(),
        ensures
            choice_views(r@) == choices_of(field, self.text(), self.day(), self.next_day(), self.list_names()),
    {
        let text = self.input.text.as_str();
        let mut out: Vec<(String, bool)> = Vec::new();
        proof {
            reveal_strlit("none");
            reveal_strlit("today");
            reveal_strlit("tomorrow");
            reveal_strlit("pick");
            reveal_strlit("high");
            reveal_strlit("med");
            reveal_strlit("low");
            reveal_strlit("!high");
            reveal_strlit("!med");
            reveal_strlit("!low");
            assert("none"@ =~= seq!['n', 'o', 'n', 'e']);
            assert("today"@ =~= seq!['t', 'o', 'd', 'a', 'y']);
            assert("tomorrow"@ =~= seq!['t', 'o', 'm', 'o', 'r', 'r', 'o', 'w']);
            assert("pick"@ =~= seq!['p', 'i', 'c', 'k']);
            assert("high"@ =~= seq!['h', 'i', 'g', 'h']);
            assert("med"@ =~= seq!['m', 'e', 'd']);
            assert("low"@ =~= seq!['l', 'o', 'w']);
            assert("!high"@ =~= seq!['!', 'h', 'i', 'g', 'h']);
            assert("!med"@ =~= seq!['!', 'm', 'e', 'd']);
            assert("!low"@ =~= seq!['!', 'l', 'o', 'w']);
        }
        match field {
            Field::Due => {
                let has = part_of(text, self.today, Part::Date);
                let mut t = String::new();
                push_char(&mut t, '@');
                self.today.push_iso(&mut t);
                let mut m = String::new();
                push_char(&mut m, '@');
                self.tomorrow.push_iso(&mut m);
                assert(t@ =~= named(self.today));
                assert(m@ =~= named(self.tomorrow));
                let (is_none, is_today, is_tomorrow) = match &has {
                    Some(w) => {
                        let wv = chars_of(w.as_str());
                        (false, same_text(&wv, &t), same_text(&wv, &m))
                    },
                    None => (true, false, false),
                };
                out.push((String::from_str("none"), is_none));
                out.push((String::from_str("today"), is_today));
                out.push((String::from_str("tomorrow"), is_tomorrow));
                match &has {
                    Some(w) => {
                        if !is_today && !is_tomorrow {
                            out.push((drop_ats(w.as_str()), true));
                        }
                    },
                    None => {},
                }
                out.push((String::from_str("pick"), false));
                assert(choice_views(out@) =~= choices_of(field, self.text(), self.day(), self.next_day(), self.list_names()));
            },
            Field::Priority => {
                let has = part_of(text, self.today, Part::Priority);
                let (n, h, md, l) = match &has {
                    Some(w) => {
                        let wv = chars_of(w.as_str());
                        (
                            false,
                            same_text(&wv, &String::from_str("!high")),
                            same_text(&wv, &String::from_str("!med")),
                            same_text(&wv, &String::from_str("!low")),
                        )
                    },
                    None => (true, false, false, false),
                };
                out.push((String::from_str("none"), n));
                out.push((String::from_str("high"), h));
                out.push((String::from_str("med"), md));
                out.push((String::from_str("low"), l));
                assert(choice_views(out@) =~= choices_of(field, self.text(), self.day(), self.next_day(), self.list_names()));
            },
            Field::List => {
                let has = crate::live::list_of(text, self.today);
                let ghost names = self.list_names();
                let mut k: usize = 0;
                while k < self.lists.len()
                    invariant
                        k <= self.lists@.len(),
                        names == self.list_names(),
                        names == crate::live::names_view(self.lists@),
                        text@ == self.text(),
                        match has {
                            Some(w) => crate::live::list_word(text@, self.today) == Some(w@),
                            None => crate::live::list_word(text@, self.today) is None,
                        },
                        choice_views(out@) == list_choices(text@, self.today, names).take(k as int),
                    decreases self.lists@.len() - k,
                {
                    let on = match &has {
                        Some(w) => crate::live::names_list(w.as_str(), self.lists[k].as_str()),
                        None => k == 0,
                    };
                    let ghost before = choice_views(out@);
                    out.push((string_from(self.lists[k].as_str()), on));
                    assert(names[k as int] == self.lists@[k as int]@);
                    assert(choice_views(out@) =~= before.push((self.lists@[k as int]@, on)));
                    assert(list_choices(text@, self.today, names).take(k + 1) =~= list_choices(text@, self.today, names).take(k as int).push(list_choices(text@, self.today, names)[k as int]));
                    k += 1;
                }
                assert(list_choices(text@, self.today, names).take(k as int) =~= list_choices(text@, self.today, names));
                assert(choice_views(out@) =~= choices_of(field, self.text(), self.day(), self.next_day(), self.list_names()));
            },
            _ => {
                assert(choice_views(out@) =~= choices_of(field, self.text(), self.day(), self.next_day(), self.list_names()));
            },
        }
        out
    }
}

fn same_text(v: &Vec<char>, s: &String) -> (r: bool)
    ensures
        r == (v@ == s@),
{
    crate::strs::same_chars(v, &chars_of(s.as_str()))
}

fn drop_ats(w: &str) -> (r: String)
    ensures
        r@ == without_ats(w@),
{
    let v = chars_of(w);
    let mut k: usize = 0;
    assert(v@.skip(0) =~= v@);
    while k < v.len() && v[k] == '@'
        invariant
            k <= v@.len(),
            without_ats(v@) == without_ats(v@.skip(k as int)),
        decreases v@.len() - k,
    {
        assert(v@.skip(k as int).drop_first() =~= v@.skip(k + 1));
        k += 1;
    }
    let rest = slice_chars(&v, k, v.len());
    assert(rest@ =~= v@.skip(k as int));
    string_of(&rest)
}

/// `by` steps round a ring of `n` from `pos`, without leaving `usize`.
fn ring_step(pos: usize, by: isize, n: usize) -> (r: usize)
    requires
        pos < n,
        -8 <= by <= 8,
    ensures
        r as int == round(pos as int, by as int, n as int),
        r < n,
{
    let m: usize = if by >= 0 { by as usize } else { (-by) as usize };
    let b = m % n;
    let ghost nn = n as int;
    let ghost q = m as int / nn;
    proof {
        vstd::arithmetic::div_mod::lemma_fundamental_div_mod(m as int, nn);
        assert(m as int == q * nn + b as int) by (nonlinear_arith)
            requires m as int == nn * q + b as int;
        assert((q + 1) * nn == q * nn + nn) by (nonlinear_arith);
        assert((-q) * nn == -(q * nn)) by (nonlinear_arith);
        assert((-q - 1) * nn == -(q * nn) - nn) by (nonlinear_arith);
    }
    let r: usize = if by >= 0 {
        if b < n - pos {
            pos + b
        } else {
            b - (n - pos)
        }
    } else {
        if pos >= b {
            pos - b
        } else {
            pos + (n - b)
        }
    };
    proof {
        let x = pos as int + by as int;
        if by >= 0 {
            if (b as int) < nn - pos {
                vstd::arithmetic::div_mod::lemma_fundamental_div_mod_converse_mod(x, nn, q, r as int);
            } else {
                vstd::arithmetic::div_mod::lemma_fundamental_div_mod_converse_mod(x, nn, q + 1, r as int);
            }
        } else {
            if pos >= b {
                vstd::arithmetic::div_mod::lemma_fundamental_div_mod_converse_mod(x, nn, -q, r as int);
            } else {
                vstd::arithmetic::div_mod::lemma_fundamental_div_mod_converse_mod(x, nn, -q - 1, r as int);
            }
        }
    }
    r
}

fn drop_md(w: &str) -> (r: String)
    ensures
        r@ == without_md(w@),
{
    let v = chars_of(w);
    let mut k: usize = v.len();
    assert(v@.take(k as int) =~= v@);
    while k >= 3 && v[k - 3] == '.' && v[k - 2] == 'm' && v[k - 1] == 'd'
        invariant
            k <= v@.len(),
            without_md(v@) == without_md(v@.take(k as int)),
        decreases k,
    {
        let ghost t = v@.take(k as int);
        assert(t.subrange(t.len() - 3, t.len() as int) =~= seq!['.', 'm', 'd']);
        assert(t.take(t.len() - 3) =~= v@.take(k - 3));
        k -= 3;
    }
    proof {
        let t = v@.take(k as int);
        if t.len() >= 3 {
            assert(t.subrange(t.len() - 3, t.len() as int) != seq!['.', 'm', 'd']) by {
                if t.subrange(t.len() - 3, t.len() as int) == seq!['.', 'm', 'd'] {
                    assert(t.subrange(t.len() - 3, t.len() as int)[0] == v@[k - 3]);
                    assert(t.subrange(t.len() - 3, t.len() as int)[1] == v@[k - 2]);
                    assert(t.subrange(t.len() - 3, t.len() as int)[2] == v@[k - 1]);
                }
            }
        }
    }
    let head = slice_chars(&v, 0, k);
    assert(head@ =~= v@.take(k as int));
    string_of(&head)
}

/// The first choice that is on, or the first when none is.
pub open spec fn first_on(cs: Seq<(Seq<char>, bool)>, k: int) -> int
    decreases cs.len() - k,
{
    if k < 0 || k >= cs.len() {
        0
    } else if cs[k].1 {
        k
    } else {
        first_on(cs, k + 1)
    }
}

/// `new` is `old` with the `n`th choice of the focused row written into the
/// line and the caret at its end; the focus moves to the due row when the
/// row it was on is gone.
pub open spec fn chose(old: Form, new: Form, n: int) -> bool {
    let cs = choices_of(old.focused(), old.text(), old.day(), old.next_day(), old.list_names());
    &&& new.day() == old.day()
    &&& new.next_day() == old.next_day()
    &&& new.list_names() == old.list_names()
    &&& new.typing_text() == old.typing_text()
    &&& new.base_text() == old.base_text()
    &&& new.line().purpose == old.line().purpose
    &&& if 0 <= n < cs.len() {
        let t = chosen_text(old.focused(), cs[n].0, old.text(), old.day(), old.next_day());
        &&& new.text() == t
        &&& new.line().at == crate::strs::byte_len(t)
        &&& (new.line().field is Some <==> (old.focused() == Field::Due && cs[n].0 == seq![
            'p',
            'i',
            'c',
            'k',
        ]))
        &&& new.focused() == (if order_of(t, old.day(), old.list_names().len() > 1).contains(old.focused()) {
            old.focused()
        } else {
            Field::Due
        })
    } else {
        &&& new.line() == old.line()
        &&& new.focused() == old.focused()
    }
}

/// `new` is `old` with the focus moved `by` steps round the tab order and
/// the row it lands on seeded from the line.
pub open spec fn stepped_focus(old: Form, new: Form, by: int) -> bool {
    let order = order_of(old.text(), old.day(), old.list_names().len() > 1);
    &&& new.line() == old.line()
    &&& new.day() == old.day()
    &&& new.next_day() == old.next_day()
    &&& new.list_names() == old.list_names()
    &&& new.focused() == order[round(position(order, old.focused(), 0), by, order.len() as int)]
    &&& (new.typing_text(), new.base_text()) == seeded(new.focused(), old.text(), old.day())
}

/// `new` is `old` with what is typed into the focused row now `typing`, and
/// the line rebuilt from it.
pub open spec fn retyped(old: Form, new: Form, typing: Seq<char>) -> bool {
    let t = synced(old.focused(), old.base_text(), typing, old.day());
    &&& new.typing_text() == typing
    &&& new.base_text() == old.base_text()
    &&& new.focused() == old.focused()
    &&& new.day() == old.day()
    &&& new.next_day() == old.next_day()
    &&& new.list_names() == old.list_names()
    &&& new.text() == t
    &&& new.line().at == crate::strs::byte_len(t)
    &&& new.line().purpose == old.line().purpose
    &&& new.line().field == old.line().field
}

fn is_word(s: &String, lit: &str) -> (r: bool)
    ensures
        r == (s@ == lit@),
{
    crate::strs::same_chars(&chars_of(s.as_str()), &chars_of(lit))
}

/// What a key does to the form, as `Form::press` does it: `r` is what the
/// key asks of the caller.
pub open spec fn pressed(was: Form, now: Form, key: Key, r: Typed) -> bool {
    &&& (now.day() == was.day())
    &&& (now.next_day() == was.next_day())
    &&& (now.list_names() == was.list_names())
    &&& (now.line().purpose == was.line().purpose)
    &&& (was.line().field is Some ==> {
        let (o, n) = (was.line(), now.line());
        &&& r == Typed::Ignore
        &&& now.focused() == was.focused()
        &&& now.typing_text() == was.typing_text()
        &&& now.base_text() == was.base_text()
        &&& match typed_of(key) {
            Typed::Left => went_left(o, n),
            Typed::Right => went_right(o, n),
            Typed::Step(by) => field_stepped(o, n, by as int),
            Typed::Char(c) => typed_in(o, n, c),
            Typed::Field | Typed::Save => field_applied(o, n),
            Typed::Cancel => field_closed(o, n),
            _ => n == o,
        }
    })
    &&& (was.line().field is None ==> {
        let f = was.focused();
        &&& r == match typed_of(key) {
            Typed::Cancel => Typed::Cancel,
            Typed::Save => if f == Field::Cancel {
                Typed::Cancel
            } else {
                Typed::Save
            },
            _ => Typed::Ignore,
        }
        &&& match typed_of(key) {
            Typed::Field => stepped_focus(
                was,
                now,
                if key.code == Code::BackTab || key.shift {
                    -1
                } else {
                    1
                },
            ),
            Typed::Step(by) => stepped_focus(was, now, -by),
            Typed::Char(c) => if f == Field::Title {
                &&& now.focused() == f
                &&& now.typing_text() == was.typing_text()
                &&& typed_in(was.line(), now.line(), c)
            } else if f == Field::Time || f == Field::Tags {
                retyped(was, now, was.typing_text().push(c))
            } else {
                now == was
            },
            Typed::Back => if f == Field::Title {
                &&& now.focused() == f
                &&& now.typing_text() == was.typing_text()
                &&& backed(was.line(), now.line())
            } else if f == Field::Time || f == Field::Tags {
                retyped(
                    was,
                    now,
                    if was.typing_text().len() > 0 {
                        was.typing_text().drop_last()
                    } else {
                        was.typing_text()
                    },
                )
            } else {
                now == was
            },
            Typed::Left => if f == Field::Title {
                &&& now.focused() == f
                &&& now.text() == was.text()
                &&& went_left(was.line(), now.line())
            } else {
                let cs = choices_of(f, was.text(), was.day(), was.next_day(), was.list_names());
                if cs.len() == 0 {
                    now == was
                } else {
                    chose(was, now, round(first_on(cs, 0), -1, cs.len() as int))
                }
            },
            Typed::Right => if f == Field::Title {
                &&& now.focused() == f
                &&& now.text() == was.text()
                &&& went_right(was.line(), now.line())
            } else {
                let cs = choices_of(f, was.text(), was.day(), was.next_day(), was.list_names());
                if cs.len() == 0 {
                    now == was
                } else {
                    chose(was, now, round(first_on(cs, 0), 1, cs.len() as int))
                }
            },
            Typed::Delete | Typed::Home | Typed::End => if f == Field::Title {
                let (o, n) = (was.line(), now.line());
                &&& now.focused() == f
                &&& now.typing_text() == was.typing_text()
                &&& match typed_of(key) {
                    Typed::Delete => deleted_after(o, n),
                    Typed::Home => went_home(o, n),
                    _ => went_end(o, n),
                }
            } else {
                now == was
            },
            _ => now == was,
        }
    })
}

impl Form {
    /// Puts `text` in the box with the caret at its end.
    fn set_text(&mut self, text: String)
        requires
            old(self).wf(),
        ensures
            final(self).wf(),
            final(self).text() == text@,
            final(self).line().at == crate::strs::byte_len(text@),
            final(self).line().purpose == old(self).line().purpose,
            final(self).line().field == old(self).line().field,
            final(self).focused() == old(self).focused(),
            final(self).day() == old(self).day(),
            final(self).next_day() == old(self).next_day(),
            final(self).list_names() == old(self).list_names(),
            final(self).typing_text() == old(self).typing_text(),
            final(self).base_text() == old(self).base_text(),
    {
        let at = crate::strs::byte_count(text.as_str());
        proof {
            assert(text@.take(text@.len() as int) =~= text@);
            crate::ui::lemma_caret(text@, text@.len() as int);
        }
        self.input.text = text;
        self.input.at = at;
    }

    /// Turns the `n`th choice on, by writing it into the line.
    fn choose_nth(&mut self, n: usize)
        requires
            old(self).wf(),
            old(self).line().field is None,
        ensures
            final(self).wf(),
            chose(*old(self), *final(self), n as int),
    {
        let choices = self.choices();
        if n >= choices.len() {
            return;
        }
        let label = &choices[n].0;
        let today = self.today;
        let text = self.input.text.clone();
        proof {
            reveal_strlit("none");
            reveal_strlit("today");
            reveal_strlit("tomorrow");
            reveal_strlit("pick");
            assert("none"@ =~= seq!['n', 'o', 'n', 'e']);
            assert("today"@ =~= seq!['t', 'o', 'd', 'a', 'y']);
            assert("tomorrow"@ =~= seq!['t', 'o', 'm', 'o', 'r', 'r', 'o', 'w']);
            assert("pick"@ =~= seq!['p', 'i', 'c', 'k']);
        }
        let chosen: String = match self.focus {
            Field::Due => {
                let datev: Vec<Part> = vec![Part::Date];
                assert(datev@ =~= seq![Part::Date]);
                if is_word(label, "none") {
                    let both: Vec<Part> = vec![Part::Date, Part::Time];
                    assert(both@ =~= seq![Part::Date, Part::Time]);
                    set_parts(text.as_str(), today, both.as_slice(), None)
                } else if is_word(label, "today") || is_word(label, "tomorrow") {
                    let day = if is_word(label, "today") {
                        today
                    } else {
                        self.tomorrow
                    };
                    let mut w = String::new();
                    push_char(&mut w, '@');
                    day.push_iso(&mut w);
                    assert(w@ =~= named(day));
                    set_parts(text.as_str(), today, datev.as_slice(), Some(w.as_str()))
                } else if is_word(label, "pick") {
                    self.input.toggle_field(today);
                    text
                } else {
                    let mut w = String::new();
                    push_char(&mut w, '@');
                    crate::strs::push_str(&mut w, label.as_str());
                    set_parts(text.as_str(), today, datev.as_slice(), Some(w.as_str()))
                }
            },
            Field::Priority => {
                let priov: Vec<Part> = vec![Part::Priority];
                assert(priov@ =~= seq![Part::Priority]);
                if is_word(label, "none") {
                    set_parts(text.as_str(), today, priov.as_slice(), None)
                } else {
                    let mut w = String::new();
                    push_char(&mut w, '!');
                    crate::strs::push_str(&mut w, label.as_str());
                    set_parts(text.as_str(), today, priov.as_slice(), Some(w.as_str()))
                }
            },
            Field::List => {
                let listv: Vec<Part> = vec![Part::List];
                assert(listv@ =~= seq![Part::List]);
                let mut w = String::new();
                push_char(&mut w, '$');
                let bare = drop_md(label.as_str());
                crate::strs::push_str(&mut w, bare.as_str());
                set_parts(text.as_str(), today, listv.as_slice(), Some(w.as_str()))
            },
            _ => text,
        };
        self.set_text(chosen);
        let order = self.order();
        let mut k: usize = 0;
        let mut found = false;
        while k < order.len()
            invariant
                k <= order@.len(),
                found <==> exists|j: int| 0 <= j < k && order@[j] == self.focus,
            decreases order@.len() - k,
        {
            if order[k] == self.focus {
                found = true;
            }
            k += 1;
        }
        if !found {
            self.focus = Field::Due;
        }
    }

    /// `←` and `→` on a chosen row: one step round its choices, applied at
    /// once.
    fn nudge(&mut self, by: isize)
        requires
            old(self).wf(),
            old(self).line().field is None,
            -8 <= by <= 8,
        ensures
            final(self).wf(),
            ({
                let cs = choices_of(old(self).focused(), old(self).text(), old(self).day(), old(self).next_day(), old(self).list_names());
                if cs.len() == 0 {
                    *final(self) == *old(self)
                } else {
                    chose(*old(self), *final(self), round(first_on(cs, 0), by as int, cs.len() as int))
                }
            }),
    {
        let choices = self.choices();
        let ghost cs = choice_views(choices@);
        if choices.len() == 0 {
            return;
        }
        let mut at: usize = 0;
        while at < choices.len() && !choices[at].1
            invariant
                cs == choice_views(choices@),
                at <= cs.len(),
                first_on(cs, 0) == first_on(cs, at as int),
            decreases cs.len() - at,
        {
            at += 1;
        }
        let n = choices.len();
        let pos: usize = if at < n { at } else { 0 };
        let next = ring_step(pos, by, n);
        self.choose_nth(next);
    }

    /// Writes what is being typed into `Time` or `Tags` back into the line,
    /// rebuilding from `base` rather than editing the last keystroke's work.
    fn sync(&mut self)
        requires
            old(self).wf(),
        ensures
            final(self).wf(),
            retyped(*old(self), *final(self), old(self).typing_text()),
    {
        let text = match self.focus {
            Field::Time => {
                let t = crate::strs::trimmed(&chars_of(self.typing.as_str()));
                let ts = string_of(&t);
                after_date(self.base.as_str(), self.today, ts.as_str())
            },
            Field::Tags => set_tags(self.base.as_str(), self.today, self.typing.as_str()),
            _ => self.base.clone(),
        };
        self.set_text(text);
    }

    /// One keypress. The date picker has the keyboard while it is open; on
    /// the form, `esc` cancels, `⏎` saves unless the focus is on Cancel,
    /// `tab` and the arrows walk the rows, and the other keys edit the row
    /// the focus is on.
    pub fn press(&mut self, key: Key) -> (r: Typed)
        requires
            old(self).wf(),
        ensures
            final(self).wf(),
            pressed(*old(self), *final(self), key, r),
    {
        let what = crate::keys::typing(key);
        if self.input.field.is_some() {
            match what {
                Typed::Left => self.input.left(),
                Typed::Right => self.input.right(),
                Typed::Step(by) => self.input.step(by),
                Typed::Char(c) => self.input.insert(c),
                Typed::Field | Typed::Save => {
                    self.input.apply_field();
                },
                Typed::Cancel => {
                    self.input.close_field();
                },
                _ => {},
            }
            return Typed::Ignore;
        }
        match what {
            Typed::Cancel => {
                return Typed::Cancel;
            },
            Typed::Save => {
                return if self.focus == Field::Cancel {
                    Typed::Cancel
                } else {
                    Typed::Save
                };
            },
            Typed::Field => {
                let back = key.code == Code::BackTab || key.shift;
                self.step_focus(if back { -1 } else { 1 });
            },
            Typed::Step(by) => {
                self.step_focus(-(by as isize));
            },
            Typed::Char(c) => {
                if self.focus == Field::Title {
                    self.input.insert(c);
                } else if self.focus.typed() {
                    push_char(&mut self.typing, c);
                    self.sync();
                }
            },
            Typed::Back => {
                if self.focus == Field::Title {
                    self.input.back();
                } else if self.focus.typed() {
                    let v = chars_of(self.typing.as_str());
                    if v.len() > 0 {
                        let cut = slice_chars(&v, 0, v.len() - 1);
                        assert(cut@ =~= v@.drop_last());
                        self.typing = string_of(&cut);
                    }
                    self.sync();
                }
            },
            Typed::Delete => {
                if self.focus == Field::Title {
                    self.input.delete();
                }
            },
            Typed::Left => {
                if self.focus == Field::Title {
                    self.input.left();
                } else {
                    self.nudge(-1);
                }
            },
            Typed::Right => {
                if self.focus == Field::Title {
                    self.input.right();
                } else {
                    self.nudge(1);
                }
            },
            Typed::Home => {
                if self.focus == Field::Title {
                    self.input.home();
                }
            },
            Typed::End => {
                if self.focus == Field::Title {
                    self.input.end();
                }
            },
            Typed::Ignore => {},
        }
        Typed::Ignore
    }
}


/// The add form laid out: its rows as pieces, top to bottom; the box's size,
/// borders included; and, while the title row has the focus, where the
/// caret is: a column inside the typed text, on the row at index two.
pub struct FormLayout {
    pub rows: Vec<Vec<Piece>>,
    pub width: u16,
    pub height: u16,
    pub caret: Option<(usize, usize)>,
}

pub open spec fn rows_of(rows: Seq<Vec<Piece>>) -> Seq<Seq<(Seq<char>, Ink)>> {
    rows.map_values(|v: Vec<Piece>| pieces(v@))
}

/// Sixty-four columns, or the pane less a margin of two each side.
pub open spec fn form_width(area_width: int) -> int {
    if sub0(area_width, 4) < 64 {
        sub0(area_width, 4) as int
    } else {
        64
    }
}

/// The columns inside the box's frame and padding.
pub open spec fn form_inner(area_width: int) -> nat {
    sub0(form_width(area_width), 6)
}

/// The mark in front of the row that has the focus.
pub open spec fn focus_mark(on: bool, g: Glyphs, th: Theme) -> (Seq<char>, Ink) {
    if on {
        (if g == Glyphs::Unicode { "\u{258c}"@ } else { ">"@ }, ink_of(th.accent))
    } else {
        (" "@, plain_ink())
    }
}

/// A row of the form: the focus mark, a space, the label padded to ten
/// characters when the row has one, then what the row shows.
pub open spec fn labelled(f: Field, on: bool, body: Seq<(Seq<char>, Ink)>, g: Glyphs, th: Theme) -> Seq<(Seq<char>, Ink)> {
    let label = field_label(f);
    seq![focus_mark(on, g, th), (" "@, plain_ink())] + (if label.len() > 0 {
        seq![(label + spaces(sub0(10, label.len() as int)), ink_of(th.dim))]
    } else {
        Seq::<(Seq<char>, Ink)>::empty()
    }) + body
}

/// What a typed row holds: what is being typed while it has the focus, and
/// otherwise what the line says for it.
pub open spec fn typed_row_text(form: Form, f: Field) -> Seq<char> {
    if form.focused() == f {
        form.typing_text()
    } else if f == Field::Time {
        match part_of_text(form.text(), form.day(), Part::Time) {
            Some(w) => w,
            None => Seq::<char>::empty(),
        }
    } else {
        tags_of_text(form.text(), form.day())
    }
}

/// `[ text ]`, the text shortened to `room` columns and padded to `room`
/// characters.
pub open spec fn bracketed(shown: Seq<char>, room: nat, g: Glyphs) -> Seq<char> {
    let s = shorten_text(shown, room, g);
    "[ "@ + s + spaces(sub0(room as int, s.len() as int)) + " ]"@
}

pub open spec fn cell_ink(chosen: bool, th: Theme) -> Ink {
    if chosen {
        bold_of(th.accent)
    } else {
        ink_of(th.foreground)
    }
}

/// What the row of field `f` shows.
pub open spec fn field_body(form: Form, f: Field, inner: nat, g: Glyphs, th: Theme) -> Seq<(Seq<char>, Ink)> {
    let fg = ink_of(th.foreground);
    if f == Field::Time || f == Field::Tags {
        seq![(bracketed(typed_row_text(form, f), sub0(inner as int, 14), g), fg)]
    } else if f == Field::Due && form.line().field is Some {
        let o = form.line().field->0;
        seq![
            (cell_text(o.part == DatePart::Day, padded(o.day as nat, 2)), cell_ink(o.part == DatePart::Day, th)),
            (cell_text(o.part == DatePart::Month, padded(o.month as nat, 2)), cell_ink(o.part == DatePart::Month, th)),
            (cell_text(o.part == DatePart::Year, year_cell(o.year as int)), cell_ink(o.part == DatePart::Year, th)),
            (" "@ + arrows_text(g), ink_of(th.dim)),
        ]
    } else {
        let cs = choices_of(f, form.text(), form.day(), form.next_day(), form.list_names());
        seq![(shorten_text(joined(cs.map_values(|c: (Seq<char>, bool)| radio_text(c, g)), "  "@), sub0(inner as int, 10), g), fg)]
    }
}

/// One row per field of `order` that has a row of its own, in that order.
pub open spec fn field_rows(form: Form, order: Seq<Field>, inner: nat, g: Glyphs, th: Theme) -> Seq<Seq<(Seq<char>, Ink)>>
    decreases order.len(),
{
    if order.len() == 0 {
        Seq::empty()
    } else {
        let rest = field_rows(form, order.drop_last(), inner, g, th);
        let f = order.last();
        if f == Field::Title || f == Field::Cancel || f == Field::Create {
            rest
        } else {
            rest.push(labelled(f, form.focused() == f, field_body(form, f, inner, g, th), g, th))
        }
    }
}

pub open spec fn corner_text(g: Glyphs, i: int) -> Seq<char> {
    if g == Glyphs::Ascii {
        "+"@
    } else if i == 0 {
        "\u{256d}"@
    } else if i == 1 {
        "\u{256e}"@
    } else if i == 2 {
        "\u{2570}"@
    } else {
        "\u{256f}"@
    }
}

/// The one-line box's own label, whose columns the form gives to the field.
pub open spec fn head_text(g: Glyphs) -> Seq<char> {
    " "@ + "ADD"@ + " "@ + (if g == Glyphs::Unicode { "\u{258f}"@ } else { "|"@ })
}

pub open spec fn capped(n: int) -> nat {
    if n > usize::MAX {
        usize::MAX as nat
    } else {
        n as nat
    }
}

/// The typed line as the one-line box draws it, without its label.
pub open spec fn typed_pieces(form: Form, inner: nat, g: Glyphs, th: Theme) -> Seq<(Seq<char>, Ink)> {
    let input = form.line();
    let lands = input.purpose is Postpone && later_days(input.text@, form.day()) is Some;
    field_pieces(
        input,
        capped((sub0(inner as int, 4) + display_width(head_text(g))) as int),
        form.day(),
        g,
        th,
        captured(input.text@, form.day()).priority,
        lands,
    ).skip(2)
}

pub open spec fn edge_ink(form: Form, th: Theme) -> Ink {
    if form.focused() == Field::Title {
        ink_of(th.accent)
    } else {
        ink_of(th.border)
    }
}

/// The question, and the title field in a box of its own.
pub open spec fn title_rows(form: Form, inner: nat, g: Glyphs, th: Theme) -> Seq<Seq<(Seq<char>, Ink)>> {
    let edge = edge_ink(form, th);
    let rule = repeated(seq![rule_char(g)], sub0(inner as int, 2));
    let typed = typed_pieces(form, inner, g, th);
    seq![
        seq![("  "@, plain_ink()), ("What needs to be done?"@, ink_of(th.foreground))],
        seq![("  "@, plain_ink()), (corner_text(g, 0) + rule + corner_text(g, 1), edge)],
        seq![focus_mark(form.focused() == Field::Title, g, th), (" "@, plain_ink()), (divider_text(g) + " "@, edge)]
            + typed + seq![
            (spaces(sub0(inner as int, (4 + widths(typed)) as int) + 1), plain_ink()),
            (divider_text(g), edge),
        ],
        seq![("  "@, plain_ink()), (corner_text(g, 2) + rule + corner_text(g, 3), edge)],
    ]
}

/// A rule, `PREVIEW`, and the line the form would write.
pub open spec fn preview_rows(line: Seq<char>, inner: nat, g: Glyphs, th: Theme) -> Seq<Seq<(Seq<char>, Ink)>> {
    seq![
        seq![("  "@, plain_ink()), (repeated(seq![rule_char(g)], inner), ink_of(th.border))],
        seq![("  "@, plain_ink()), ("PREVIEW"@, bold_of(th.foreground))],
        seq![("  "@, plain_ink()), (shorten_text(line, inner, g), ink_of(th.dim))],
    ]
}

pub open spec fn create_text(g: Glyphs) -> Seq<char> {
    "[ "@ + enter_text(g) + " create task ]"@
}

/// The two buttons, cancel on the left and create on the right.
pub open spec fn button_row(form: Form, inner: nat, g: Glyphs, th: Theme) -> Seq<(Seq<char>, Ink)> {
    let cancel = "[ esc cancel ]"@;
    let gap = sub0(inner as int, (display_width(cancel) + display_width(create_text(g)) + 2) as int);
    seq![
        focus_mark(form.focused() == Field::Cancel, g, th),
        (" "@, plain_ink()),
        (cancel, ink_of(th.foreground)),
        (spaces(gap), plain_ink()),
        focus_mark(form.focused() == Field::Create, g, th),
        (" "@, plain_ink()),
        (create_text(g), ink_of(th.foreground)),
    ]
}

pub open spec fn blank_if(b: bool) -> Seq<Seq<(Seq<char>, Ink)>> {
    if b {
        seq![Seq::<(Seq<char>, Ink)>::empty()]
    } else {
        Seq::empty()
    }
}

/// The whole form for a pane of `area_width` by `area_height`, with `line`
/// the line it would write. Blank rows are the give: where the pane has
/// height to spare, one goes above the buttons, then one above the preview,
/// then one above the field rows, and no more.
pub open spec fn form_rows(form: Form, area_width: int, area_height: int, line: Seq<char>, g: Glyphs, th: Theme) -> Seq<Seq<(Seq<char>, Ink)>> {
    let inner = form_inner(area_width);
    let fields = field_rows(form, order_of(form.text(), form.day(), form.list_names().len() > 1), inner, g, th);
    let spare = sub0(area_height, (fields.len() + 10) as int);
    title_rows(form, inner, g, th) + blank_if(spare >= 3) + fields + blank_if(spare >= 2)
        + preview_rows(line, inner, g, th) + blank_if(spare >= 1) + seq![button_row(form, inner, g, th)]
}

fn focus_piece(on: bool, g: Glyphs, th: Theme) -> (r: Piece)
    ensures
        r@ == focus_mark(on, g, th),
{
    if on {
        let t = match g {
            Glyphs::Unicode => string_from("\u{258c}"),
            Glyphs::Ascii => string_from(">"),
        };
        piece(t, Ink { fg: Some(th.accent), bold: false })
    } else {
        piece(string_from(" "), Ink { fg: None, bold: false })
    }
}

/// `t` followed by spaces up to `n` characters.
fn padded_to(t: &str, n: usize) -> (r: String)
    ensures
        r@ == t@ + spaces(sub0(n as int, t@.len() as int)),
{
    let k = chars_of(t).len();
    let mut s = string_from(t);
    let pad = if n > k { n - k } else { 0 };
    push_str(&mut s, spaces_string(pad).as_str());
    s
}

fn labelled_row(f: Field, on: bool, body: Vec<Piece>, g: Glyphs, th: Theme) -> (r: Vec<Piece>)
    ensures
        pieces(r@) == labelled(f, on, pieces(body@), g, th),
{
    let mut out: Vec<Piece> = Vec::new();
    push_focus(&mut out, on, g, th);
    push_piece(&mut out, string_from(" "), Ink { fg: None, bold: false });
    let label = f.label();
    if chars_of(label).len() > 0 {
        push_piece(&mut out, padded_to(label, 10), Ink { fg: Some(th.dim), bold: false });
    }
    let ghost front = pieces(out@);
    append_pieces(&mut out, body);
    assert(pieces(out@) =~= labelled(f, on, pieces(body@), g, th));
    out
}

impl Form {
    fn typed_row_body(&self, f: Field, inner: usize, g: Glyphs, th: Theme) -> (r: Vec<Piece>)
        requires
            self.wf(),
            f == Field::Time || f == Field::Tags,
        ensures
            pieces(r@) == field_body(*self, f, inner as nat, g, th),
    {
        let fg = Ink { fg: Some(th.foreground), bold: false };
        let mut out: Vec<Piece> = Vec::new();
        let shown = if self.focus == f {
            self.typed_text()
        } else if f == Field::Time {
            match part_of(self.input.text.as_str(), self.today, Part::Time) {
                Some(w) => w,
                None => String::new(),
            }
        } else {
            tags_of(self.input.text.as_str(), self.today)
        };
        assert(shown@ == typed_row_text(*self, f));
        let room: usize = if inner > 14 { inner - 14 } else { 0 };
        let short = shorten(shown.as_str(), room, g);
        let mut s = string_from("[ ");
        push_str(&mut s, padded_to(short.as_str(), room).as_str());
        push_str(&mut s, " ]");
        assert(s@ =~= bracketed(typed_row_text(*self, f), room as nat, g));
        push_piece(&mut out, s, fg);
        assert(pieces(out@) =~= field_body(*self, f, inner as nat, g, th));
        out
    }

    fn date_row_body(&self, inner: usize, g: Glyphs, th: Theme) -> (r: Vec<Piece>)
        requires
            self.wf(),
            self.line().field is Some,
        ensures
            pieces(r@) == field_body(*self, Field::Due, inner as nat, g, th),
    {
        let fg = Ink { fg: Some(th.foreground), bold: false };
        let heavy = Ink { fg: Some(th.accent), bold: true };
        let mut out: Vec<Piece> = Vec::new();
        let o = match self.input.field {
            Some(o) => o,
            None => {
                return out;
            },
        };
        let (c0, c1, c2) = o.cell_texts();
        push_piece(&mut out, c0, if o.part == DatePart::Day { heavy } else { fg });
        push_piece(&mut out, c1, if o.part == DatePart::Month { heavy } else { fg });
        push_piece(&mut out, c2, if o.part == DatePart::Year { heavy } else { fg });
        let mut a = string_from(" ");
        push_str(&mut a, g.arrows());
        push_piece(&mut out, a, Ink { fg: Some(th.dim), bold: false });
        assert(pieces(out@) =~= field_body(*self, Field::Due, inner as nat, g, th));
        out
    }

    fn radio_row_body(&self, f: Field, inner: usize, g: Glyphs, th: Theme) -> (r: Vec<Piece>)
        requires
            self.wf(),
            !(f == Field::Time || f == Field::Tags),
            !(f == Field::Due && self.line().field is Some),
        ensures
            pieces(r@) == field_body(*self, f, inner as nat, g, th),
    {
        let fg = Ink { fg: Some(th.foreground), bold: false };
        let mut out: Vec<Piece> = Vec::new();
        let cs = self.choices_for(f);
        let room: usize = if inner > 10 { inner - 10 } else { 0 };
        let slice = cs.as_slice();
        let line = radios(slice, g);
        assert(slice@ == cs@);
        assert(choice_views(cs@).map_values(|c: (Seq<char>, bool)| radio_text(c, g)) =~= choices_of(
            f,
            self.text(),
            self.day(),
            self.next_day(),
            self.list_names(),
        ).map_values(|c: (Seq<char>, bool)| radio_text(c, g)));
        push_piece(&mut out, shorten(line.as_str(), room, g), fg);
        assert(pieces(out@) =~= field_body(*self, f, inner as nat, g, th));
        out
    }

    fn field_body(&self, f: Field, inner: usize, g: Glyphs, th: Theme) -> (r: Vec<Piece>)
        requires
            self.wf(),
        ensures
            pieces(r@) == field_body(*self, f, inner as nat, g, th),
    {
        if f == Field::Time || f == Field::Tags {
            self.typed_row_body(f, inner, g, th)
        } else if f == Field::Due && self.input.field.is_some() {
            self.date_row_body(inner, g, th)
        } else {
            self.radio_row_body(f, inner, g, th)
        }
    }
}

fn push_focus(out: &mut Vec<Piece>, on: bool, g: Glyphs, th: Theme)
    ensures
        pieces(final(out)@) == pieces(old(out)@).push(focus_mark(on, g, th)),
{
    let p = focus_piece(on, g, th);
    let ghost v = p@;
    out.push(p);
    assert(pieces(out@) =~= pieces(old(out)@).push(v));
}

fn push_row(rows: &mut Vec<Vec<Piece>>, row: Vec<Piece>)
    ensures
        rows_of(final(rows)@) == rows_of(old(rows)@).push(pieces(row@)),
{
    let ghost v = pieces(row@);
    rows.push(row);
    assert(rows_of(rows@) =~= rows_of(old(rows)@).push(v));
}

fn push_blank(rows: &mut Vec<Vec<Piece>>)
    ensures
        rows_of(final(rows)@) == rows_of(old(rows)@).push(Seq::<(Seq<char>, Ink)>::empty()),
{
    let row: Vec<Piece> = Vec::new();
    assert(pieces(row@) =~= Seq::<(Seq<char>, Ink)>::empty());
    push_row(rows, row);
}

fn append_rows(rows: &mut Vec<Vec<Piece>>, more: Vec<Vec<Piece>>)
    ensures
        rows_of(final(rows)@) == rows_of(old(rows)@) + rows_of(more@),
{
    let mut more = more;
    let ghost m = rows_of(more@);
    rows.append(&mut more);
    assert(rows_of(rows@) =~= rows_of(old(rows)@) + m);
}

fn indented(text: String, ink: Ink) -> (r: Vec<Piece>)
    ensures
        pieces(r@) == seq![("  "@, plain_ink()), (text@, ink)],
{
    let mut out: Vec<Piece> = Vec::new();
    push_piece(&mut out, string_from("  "), Ink { fg: None, bold: false });
    push_piece(&mut out, text, ink);
    assert(pieces(out@) =~= seq![("  "@, plain_ink()), (text@, ink)]);
    out
}

fn preview_row_list(line: &str, inner: usize, g: Glyphs, th: Theme) -> (r: Vec<Vec<Piece>>)
    ensures
        rows_of(r@) == preview_rows(line@, inner as nat, g, th),
{
    let mut long_rule = String::new();
    crate::layout::push_char_times(&mut long_rule, g.rule(), inner);
    let mut rows: Vec<Vec<Piece>> = Vec::new();
    push_row(&mut rows, indented(long_rule, Ink { fg: Some(th.border), bold: false }));
    push_row(&mut rows, indented(string_from("PREVIEW"), Ink { fg: Some(th.foreground), bold: true }));
    push_row(&mut rows, indented(shorten(line, inner, g), Ink { fg: Some(th.dim), bold: false }));
    assert(rows_of(rows@) =~= preview_rows(line@, inner as nat, g, th));
    rows
}

/// A corner, the rule, a corner: the top or the bottom of the title's box.
fn edge_text(top: bool, inner: usize, g: Glyphs) -> (r: String)
    ensures
        r@ == corner_text(g, if top { 0 } else { 2 }) + repeated(seq![rule_char(g)], sub0(inner as int, 2))
            + corner_text(g, if top { 1 } else { 3 }),
{
    let mut rule = String::new();
    crate::layout::push_char_times(&mut rule, g.rule(), if inner > 2 { inner - 2 } else { 0 });
    let corners = g.corners();
    let mut out = string_from(if top { corners[0] } else { corners[2] });
    push_str(&mut out, rule.as_str());
    push_str(&mut out, if top { corners[1] } else { corners[3] });
    out
}

impl Form {
    fn button_pieces(&self, inner: usize, g: Glyphs, th: Theme) -> (r: Vec<Piece>)
        ensures
            pieces(r@) == button_row(*self, inner as nat, g, th),
    {
        let plain = Ink { fg: None, bold: false };
        let fg = Ink { fg: Some(th.foreground), bold: false };
        let cancel = "[ esc cancel ]";
        let mut create = string_from("[ ");
        push_str(&mut create, g.enter());
        push_str(&mut create, " create task ]");
        let cw = columns(cancel);
        let crw = columns(create.as_str());
        let gap: usize = if inner >= 2 && inner - 2 >= cw && inner - 2 - cw >= crw { inner - 2 - cw - crw } else { 0 };
        assert(gap as nat == sub0(inner as int, (display_width(cancel@) + display_width(create_text(g)) + 2) as int));
        let mut b: Vec<Piece> = Vec::new();
        push_focus(&mut b, self.focus == Field::Cancel, g, th);
        push_piece(&mut b, string_from(" "), plain);
        push_piece(&mut b, string_from(cancel), fg);
        push_piece(&mut b, spaces_string(gap), plain);
        push_focus(&mut b, self.focus == Field::Create, g, th);
        push_piece(&mut b, string_from(" "), plain);
        push_piece(&mut b, create, fg);
        assert(pieces(b@) =~= button_row(*self, inner as nat, g, th));
        b
    }

    /// The typed line as the one-line box draws it, without its label, and
    /// the caret's column in it.
    fn typed_field(&self, inner: usize, lists: &[String], g: Glyphs, th: Theme) -> (r: (Vec<Piece>, usize))
        requires
            self.wf(),
        ensures
            pieces(r.0@) == typed_pieces(*self, inner as nat, g, th),
            r.1 == sub0(
                caret_column(
                    self.line().text@,
                    self.line().caret_at(),
                    capped((sub0(inner as int, 4) + display_width(head_text(g))) as int),
                    self.line().purpose,
                    g,
                ) as int,
                display_width(head_text(g)) as int,
            ),
    {
        let mut head = string_from(" ");
        push_str(&mut head, "ADD");
        push_str(&mut head, " ");
        push_str(&mut head, g.field());
        assert(head@ == head_text(g));
        let head_width = columns(head.as_str());
        let room: usize = if inner > 4 { inner - 4 } else { 0 };
        let w = room.saturating_add(head_width);
        assert(w as nat == capped((sub0(inner as int, 4) + display_width(head_text(g))) as int));
        let (field, _, _, caret) = crate::layout::input_lines(&self.input, w, lists, self.today, g, th);
        let ghost fv = pieces(field@);
        assert(fv.len() >= 2);
        let mut rest = field;
        let _label = rest.remove(0);
        let _bar = rest.remove(0);
        assert(pieces(rest@) =~= fv.skip(2));
        (rest, if caret > head_width { caret - head_width } else { 0 })
    }

    /// The question and the boxed title field, and the caret's column in it.
    fn title_row_list(&self, inner: usize, lists: &[String], g: Glyphs, th: Theme) -> (r: (Vec<Vec<Piece>>, usize))
        requires
            self.wf(),
        ensures
            rows_of(r.0@) == title_rows(*self, inner as nat, g, th),
            r.1 == sub0(
                caret_column(
                    self.line().text@,
                    self.line().caret_at(),
                    capped((sub0(inner as int, 4) + display_width(head_text(g))) as int),
                    self.line().purpose,
                    g,
                ) as int,
                display_width(head_text(g)) as int,
            ),
    {
        let plain = Ink { fg: None, bold: false };
        let fg = Ink { fg: Some(th.foreground), bold: false };
        let edge = if self.focus == Field::Title {
            Ink { fg: Some(th.accent), bold: false }
        } else {
            Ink { fg: Some(th.border), bold: false }
        };
        assert(edge == edge_ink(*self, th));
        let (rest, caret) = self.typed_field(inner, lists, g, th);
        let typed_width = crate::layout::width_of(&rest);
        let top = edge_text(true, inner, g);
        let bottom = edge_text(false, inner, g);
        let mut rows: Vec<Vec<Piece>> = Vec::new();
        push_row(&mut rows, indented(string_from("What needs to be done?"), fg));
        push_row(&mut rows, indented(top, edge));
        let mut r2: Vec<Piece> = Vec::new();
        push_focus(&mut r2, self.focus == Field::Title, g, th);
        push_piece(&mut r2, string_from(" "), plain);
        let mut side = string_from(g.divider());
        push_str(&mut side, " ");
        push_piece(&mut r2, side, edge);
        let ghost front = pieces(r2@);
        let ghost typed = pieces(rest@);
        append_pieces(&mut r2, rest);
        let pad: usize = if inner > 4 && inner - 4 > typed_width { inner - 4 - typed_width } else { 0 };
        assert(pad as nat == sub0(inner as int, (4 + widths(typed)) as int));
        push_piece(&mut r2, spaces_string(pad + 1), plain);
        push_piece(&mut r2, string_from(g.divider()), edge);
        let ghost third = pieces(r2@);
        assert(third =~= seq![focus_mark(self.focused() == Field::Title, g, th), (" "@, plain_ink()), (divider_text(g) + " "@, edge)]
            + typed + seq![
            (spaces(sub0(inner as int, (4 + widths(typed)) as int) + 1), plain_ink()),
            (divider_text(g), edge),
        ]);
        push_row(&mut rows, r2);
        push_row(&mut rows, indented(bottom, edge));
        assert(rows_of(rows@) =~= title_rows(*self, inner as nat, g, th));
        (rows, caret)
    }

    /// The rows of the form, top to bottom, in the form's own order.
    fn field_row_list(&self, inner: usize, g: Glyphs, th: Theme) -> (r: Vec<Vec<Piece>>)
        requires
            self.wf(),
        ensures
            rows_of(r@) == field_rows(*self, order_of(self.text(), self.day(), self.list_names().len() > 1), inner as nat, g, th),
    {
        let order = self.order();
        let mut out: Vec<Vec<Piece>> = Vec::new();
        let mut i: usize = 0;
        while i < order.len()
            invariant
                self.wf(),
                i <= order@.len(),
                order@ == order_of(self.text(), self.day(), self.list_names().len() > 1),
                rows_of(out@) == field_rows(*self, order@.take(i as int), inner as nat, g, th),
            decreases order@.len() - i,
        {
            let f = order[i];
            assert(order@.take(i + 1).drop_last() =~= order@.take(i as int));
            assert(order@.take(i + 1).last() == f);
            if !(f == Field::Title || f == Field::Cancel || f == Field::Create) {
                let body = self.field_body(f, inner, g, th);
                let row = labelled_row(f, self.focus == f, body, g, th);
                push_row(&mut out, row);
            }
            i += 1;
        }
        assert(order@.take(order@.len() as int) =~= order@);
        out
    }

    /// The add form laid out for a pane of `width` by `height` columns and
    /// rows: the rows it draws, the box they go in, and the caret.
    #[verifier::rlimit(80)]
    pub fn layout(&self, width: u16, height: u16, lists: &[String], glyphs: Glyphs, theme: Theme) -> (r: FormLayout)
        requires
            self.wf(),
        ensures
            r.width == form_width(width as int),
            r.height as int == if rows_of(r.rows@).len() + 2 < height { (rows_of(r.rows@).len() + 2) as int } else { height as int },
            r.caret == if self.focused() == Field::Title {
                Some((
                    sub0(
                        caret_column(
                            self.line().text@,
                            self.line().caret_at(),
                            capped((sub0(form_inner(width as int) as int, 4) + display_width(head_text(glyphs))) as int),
                            self.line().purpose,
                            glyphs,
                        ) as int,
                        display_width(head_text(glyphs)) as int,
                    ) as usize,
                    2usize,
                ))
            } else {
                None
            },
            exists|t: Task|
                #![trigger is_capture(t, self.text(), self.day())]
                is_capture(t, self.text(), self.day()) && rows_of(r.rows@) == form_rows(
                    *self,
                    width as int,
                    height as int,
                    t.raw@,
                    glyphs,
                    theme,
                ),
    {
        let today = self.today;
        let box_width: u16 = if width > 4 { if width - 4 < 64 { width - 4 } else { 64 } } else { 0 };
        let inner: usize = if box_width > 6 { (box_width - 6) as usize } else { 0 };
        assert(inner as nat == form_inner(width as int));
        let (mut rows, caret) = self.title_row_list(inner, lists, glyphs, theme);
        let ghost t_rows = rows_of(rows@);
        let fields = self.field_row_list(inner, glyphs, theme);
        let ghost f_rows = rows_of(fields@);
        let nf = fields.len();
        let spare: usize = if (height as usize) > nf && (height as usize) - nf > 10 {
            (height as usize) - nf - 10
        } else {
            0
        };
        assert(spare as nat == sub0(height as int, (f_rows.len() + 10) as int));
        if spare >= 3 {
            push_blank(&mut rows);
        }
        assert(rows_of(rows@) =~= t_rows + blank_if(spare >= 3));
        append_rows(&mut rows, fields);
        if spare >= 2 {
            push_blank(&mut rows);
        }
        let ghost s2 = t_rows + blank_if(spare >= 3) + f_rows + blank_if(spare >= 2);
        assert(rows_of(rows@) =~= s2);
        let parsed = crate::capture::capture(self.input.text.as_str(), today);
        let preview = preview_row_list(parsed.raw.as_str(), inner, glyphs, theme);
        append_rows(&mut rows, preview);
        if spare >= 1 {
            push_blank(&mut rows);
        }
        let ghost s3 = s2 + preview_rows(parsed.raw@, inner as nat, glyphs, theme) + blank_if(spare >= 1);
        assert(rows_of(rows@) =~= s3);
        let b = self.button_pieces(inner, glyphs, theme);
        push_row(&mut rows, b);
        assert(rows_of(rows@) =~= s3 + seq![button_row(*self, inner as nat, glyphs, theme)]);
        assert(rows_of(rows@) == form_rows(*self, width as int, height as int, parsed.raw@, glyphs, theme));
        let n = rows.len();
        let tall: u16 = if (height as usize) > 2 && n < (height as usize) - 2 { (n + 2) as u16 } else { height };
        let caret_at = if self.focus == Field::Title {
            Some((caret, 2usize))
        } else {
            None
        };
        FormLayout { rows, width: box_width, height: tall, caret: caret_at }
    }
}

} // verus!
