//! The screen's own logic: which glyphs, how much fits, the small bars and
//! counts, and the one-line input box with its date field. Drawing it is
//! left to the terminal code around the library.

use vstd::prelude::*;

use crate::agenda::Counts;
use crate::date::{iso_text, Date, max_year, min_year, month_length, valid_ymd};
use crate::strs::{byte_len, byte_count, byte_offsets, slice_chars, spans, trim, trim_end, width, word_at, word_spans};
use crate::model::{State, Task};
use crate::parse::{lower_ascii, lowered};
use crate::strs::{
    chars_of, digits, has_infix, padded, push_char, push_str, same_chars, string_of, trim_start,
};
use crate::text::{clean, joined, plain};

pub use crate::form::{after_date, part_of, set_parts, set_tags, tags_of, Field, Form};
pub use crate::keys::{action, typing, Action, Code, Key, Typed};
pub use crate::live::Notice;
pub use crate::screen::{rows, Fold, Row, Screen};

verus! {

/// What `ratatui` counts as the display width of a text, as the
/// `unicode-width` tables measure it: some character sequences are measured
/// as a whole, so nothing here says the widths of the parts add up.
pub uninterp spec fn display_width(s: Seq<char>) -> nat;

/// `ratatui::text::Span::width`: display columns, not bytes and not
/// characters. Claimed: a function of the text alone.
#[verifier::external_body]
pub(crate) fn columns(text: &str) -> (r: usize)
    ensures
        r == display_width(text@),
{
    ratatui::text::Span::raw(text).width()
}

/// Unicode where the locale can draw it, ASCII where it cannot. Every glyph
/// has both forms, and no meaning is ever carried by colour alone.
#[derive(Debug, Clone, Copy, PartialEq, Eq, Structural)]
pub enum Glyphs {
    Unicode,
    Ascii,
}

/// The locale with case folded and dashes dropped: `UTF-8`, `utf8` and
/// `UTF8` all read the same.
pub open spec fn not_dash() -> spec_fn(char) -> bool {
    |c: char| c != '-'
}

pub open spec fn locale_key(l: Seq<char>) -> Seq<char> {
    lower_ascii(l).filter(not_dash())
}

pub open spec fn glyphs_for(locale: Option<Seq<char>>) -> Glyphs {
    match locale {
        Some(l) => if has_infix(locale_key(l), seq!['u', 't', 'f', '8']) {
            Glyphs::Unicode
        } else {
            Glyphs::Ascii
        },
        None => Glyphs::Ascii,
    }
}

pub open spec fn mark_text(g: Glyphs, t: Task, today: Date) -> Seq<char> {
    match (g, t.state) {
        (Glyphs::Unicode, State::Done) => "\u{2713}"@,
        (Glyphs::Unicode, State::Cancelled) => "\u{2717}"@,
        (Glyphs::Unicode, State::Open) => if t.overdue(today) {
            "!"@
        } else {
            "\u{25cb}"@
        },
        (Glyphs::Ascii, State::Done) => "[x]"@,
        (Glyphs::Ascii, State::Cancelled) => "[-]"@,
        (Glyphs::Ascii, State::Open) => if t.overdue(today) {
            "[!]"@
        } else {
            "[ ]"@
        },
    }
}

impl Glyphs {
    /// Read from the locale: an unset locale is C, which is not UTF-8.
    pub fn for_locale(locale: Option<&str>) -> (r: Glyphs)
        ensures
            r == glyphs_for(
                match locale {
                    Some(l) => Some(l@),
                    None => None,
                },
            ),
    {
        match locale {
            Some(l) => {
                let low = lowered(&chars_of(l));
                proof {
                    reveal(Seq::filter);
                }
                assert(low@.take(0) =~= Seq::<char>::empty());
                let mut key: Vec<char> = Vec::new();
                let mut i: usize = 0;
                while i < low.len()
                    invariant
                        i <= low@.len(),
                        key@ == low@.take(i as int).filter(not_dash()),
                    decreases low@.len() - i,
                {
                    assert(low@.take(i + 1).drop_last() =~= low@.take(i as int));
                    assert(low@.take(i + 1).last() == low@[i as int]);
                    let ghost before = key@;
                    if low[i] != '-' {
                        key.push(low[i]);
                    }
                    proof {
                        reveal(Seq::filter);
                    }
                    assert(low@.take(i + 1).filter(not_dash()) == if not_dash()(low@[i as int]) {
                        low@.take(i as int).filter(not_dash()).push(low@[i as int])
                    } else {
                        low@.take(i as int).filter(not_dash())
                    });
                    i += 1;
                }
                assert(low@.take(low@.len() as int) =~= low@);
                proof {
                    reveal(Seq::filter);
                }
                let utf8: Vec<char> = vec!['u', 't', 'f', '8'];
                assert(utf8@ =~= seq!['u', 't', 'f', '8']);
                if crate::strs::contains(&key, &utf8) {
                    Glyphs::Unicode
                } else {
                    Glyphs::Ascii
                }
            },
            None => Glyphs::Ascii,
        }
    }

    pub fn mark(self, task: &Task, today: Date) -> (r: &'static str)
        ensures
            r@ == mark_text(self, *task, today),
    {
        let late = task.is_overdue(today);
        match (self, task.state) {
            (Glyphs::Unicode, State::Done) => "\u{2713}",
            (Glyphs::Unicode, State::Cancelled) => "\u{2717}",
            (Glyphs::Unicode, State::Open) => if late {
                "!"
            } else {
                "\u{25cb}"
            },
            (Glyphs::Ascii, State::Done) => "[x]",
            (Glyphs::Ascii, State::Cancelled) => "[-]",
            (Glyphs::Ascii, State::Open) => if late {
                "[!]"
            } else {
                "[ ]"
            },
        }
    }

    /// Every mark in a set is this many columns: the column arithmetic is
    /// done before there is a task to ask.
    pub fn mark_width(self) -> (r: usize)
        ensures
            r == (if self == Glyphs::Unicode {
                1usize
            } else {
                3usize
            }),
    {
        match self {
            Glyphs::Unicode => 1,
            Glyphs::Ascii => 3,
        }
    }

    pub fn cursor(self) -> (r: &'static str)
        ensures
            r@ == (if self == Glyphs::Unicode {
                "\u{258c} "@
            } else {
                "> "@
            }),
    {
        match self {
            Glyphs::Unicode => "\u{258c} ",
            Glyphs::Ascii => "> ",
        }
    }

    /// The enter key's name, in the hints and on the input line.
    pub fn enter(self) -> (r: &'static str)
        ensures
            r@ == enter_text(self),
    {
        match self {
            Glyphs::Unicode => "\u{23ce}",
            Glyphs::Ascii => "ret",
        }
    }

    /// The rule between two columns.
    pub fn divider(self) -> (r: &'static str)
        ensures
            r@ == (if self == Glyphs::Unicode {
                "\u{2502}"@
            } else {
                "|"@
            }),
    {
        match self {
            Glyphs::Unicode => "\u{2502}",
            Glyphs::Ascii => "|",
        }
    }

    /// A group box's corners: top left, top right, bottom left, bottom right.
    pub fn corners(self) -> (r: [&'static str; 4])
        ensures
            self == Glyphs::Unicode ==> r@[0]@ == "\u{256d}"@ && r@[1]@ == "\u{256e}"@ && r@[2]@
                == "\u{2570}"@ && r@[3]@ == "\u{256f}"@,
            self == Glyphs::Ascii ==> r@[0]@ == "+"@ && r@[1]@ == "+"@ && r@[2]@ == "+"@ && r@[3]@
                == "+"@,
    {
        match self {
            Glyphs::Unicode => ["\u{256d}", "\u{256e}", "\u{2570}", "\u{256f}"],
            Glyphs::Ascii => ["+", "+", "+", "+"],
        }
    }

    /// Where a column's divider meets the top and the bottom of its box.
    pub fn junctions(self) -> (r: (&'static str, &'static str))
        ensures
            self == Glyphs::Unicode ==> r.0@ == "\u{252c}"@ && r.1@ == "\u{2534}"@,
            self == Glyphs::Ascii ==> r.0@ == "+"@ && r.1@ == "+"@,
    {
        match self {
            Glyphs::Unicode => ("\u{252c}", "\u{2534}"),
            Glyphs::Ascii => ("+", "+"),
        }
    }

    pub fn arrow(self) -> (r: &'static str)
        ensures
            r@ == (if self == Glyphs::Unicode {
                "\u{2192}"@
            } else {
                "->"@
            }),
    {
        match self {
            Glyphs::Unicode => "\u{2192}",
            Glyphs::Ascii => "->",
        }
    }

    pub fn arrows(self) -> (r: &'static str)
        ensures
            r@ == (if self == Glyphs::Unicode {
                "\u{2193} \u{2191}"@
            } else {
                "down up"@
            }),
    {
        match self {
            Glyphs::Unicode => "\u{2193} \u{2191}",
            Glyphs::Ascii => "down up",
        }
    }

    /// What a cut title ends in.
    pub fn ellipsis(self) -> (r: &'static str)
        ensures
            r@ == ellipsis_text(self),
    {
        match self {
            Glyphs::Unicode => "\u{2026}",
            Glyphs::Ascii => "...",
        }
    }

    pub fn tick(self) -> (r: &'static str)
        ensures
            r@ == tick_text(self),
    {
        match self {
            Glyphs::Unicode => "\u{2713}",
            Glyphs::Ascii => "x",
        }
    }

    /// Filled and empty, for the bars on the stats screen.
    pub fn block(self) -> (r: (&'static str, &'static str))
        ensures
            r.0@ == block_text(self).0,
            r.1@ == block_text(self).1,
    {
        match self {
            Glyphs::Unicode => ("\u{2588}", "\u{2591}"),
            Glyphs::Ascii => ("#", "."),
        }
    }

    /// Filled and empty, for the progress bar.
    pub fn bar(self) -> (r: (&'static str, &'static str))
        ensures
            self == Glyphs::Unicode ==> r.0@ == "\u{25b0}"@ && r.1@ == "\u{25b1}"@,
            self == Glyphs::Ascii ==> r.0@ == "#"@ && r.1@ == "-"@,
    {
        match self {
            Glyphs::Unicode => ("\u{25b0}", "\u{25b1}"),
            Glyphs::Ascii => ("#", "-"),
        }
    }

    /// The bar the typed text sits behind.
    pub fn field(self) -> (r: &'static str)
        ensures
            r@ == (if self == Glyphs::Unicode {
                "\u{258f}"@
            } else {
                "|"@
            }),
    {
        match self {
            Glyphs::Unicode => "\u{258f}",
            Glyphs::Ascii => "|",
        }
    }

    pub fn rule(self) -> (r: char)
        ensures
            r == (if self == Glyphs::Unicode {
                '\u{2500}'
            } else {
                '-'
            }),
    {
        match self {
            Glyphs::Unicode => '\u{2500}',
            Glyphs::Ascii => '-',
        }
    }

    /// Where the rule inside the input box meets the frame.
    pub fn tee(self) -> (r: (&'static str, &'static str))
        ensures
            self == Glyphs::Unicode ==> r.0@ == "\u{251c}"@ && r.1@ == "\u{2524}"@,
            self == Glyphs::Ascii ==> r.0@ == "+"@ && r.1@ == "+"@,
    {
        match self {
            Glyphs::Unicode => ("\u{251c}", "\u{2524}"),
            Glyphs::Ascii => ("+", "+"),
        }
    }

    /// The dash between the name and the counts, and the dot between counts.
    pub fn punctuation(self) -> (r: (&'static str, &'static str))
        ensures
            r.0@ == punctuation_text(self).0,
            r.1@ == punctuation_text(self).1,
    {
        match self {
            Glyphs::Unicode => ("\u{2014}", "\u{b7}"),
            Glyphs::Ascii => ("-", "/"),
        }
    }
}

pub open spec fn enter_text(g: Glyphs) -> Seq<char> {
    if g == Glyphs::Unicode {
        "\u{23ce}"@
    } else {
        "ret"@
    }
}

pub open spec fn ellipsis_text(g: Glyphs) -> Seq<char> {
    if g == Glyphs::Unicode {
        "\u{2026}"@
    } else {
        "..."@
    }
}

pub open spec fn tick_text(g: Glyphs) -> Seq<char> {
    if g == Glyphs::Unicode {
        "\u{2713}"@
    } else {
        "x"@
    }
}

pub open spec fn block_text(g: Glyphs) -> (Seq<char>, Seq<char>) {
    if g == Glyphs::Unicode {
        ("\u{2588}"@, "\u{2591}"@)
    } else {
        ("#"@, "."@)
    }
}

pub open spec fn punctuation_text(g: Glyphs) -> (Seq<char>, Seq<char>) {
    if g == Glyphs::Unicode {
        ("\u{2014}"@, "\u{b7}"@)
    } else {
        ("-"@, "/"@)
    }
}

/// How much of a row fits.
#[derive(Debug, Clone, Copy, PartialEq, Eq, PartialOrd, Ord, Structural)]
pub enum Size {
    /// Under 34 columns: the frame goes entirely and only rows are left.
    Bare,
    /// 34 to 59: spacers and tags go, the date shortens.
    Narrow,
    /// 60 and up: everything.
    Wide,
}

pub open spec fn size_for(columns: int) -> Size {
    if columns <= 33 {
        Size::Bare
    } else if columns <= 59 {
        Size::Narrow
    } else {
        Size::Wide
    }
}

impl Size {
    pub fn of(columns: u16) -> (r: Size)
        ensures
            r == size_for(columns as int),
    {
        if columns <= 33 {
            Size::Bare
        } else if columns <= 59 {
            Size::Narrow
        } else {
            Size::Wide
        }
    }
}

/// The right-hand date column. A finished task shows the day it was
/// finished; otherwise near dates read as words, far ones as `Aug 8`, and
/// what the heading above already says is left out.
pub open spec fn when_text(t: Task, today: Date, size: Size) -> Seq<char> {
    if t.is_done() && t.done_on is Some {
        let on = t.done_on->0;
        let k = today.number() - on.number();
        if k == 0 {
            seq!['t', 'o', 'd', 'a', 'y']
        } else if 1 <= k <= 6 {
            crate::date::weekday_short(on.weekday_spec())
        } else {
            crate::date::month_day_text(on)
        }
    } else {
        match t.due {
            None => seq![],
            Some(due) => {
                let d = due.date.number() - today.number();
                if d < 0 && t.is_open() {
                    digits((-d) as nat) + seq!['d', ' ', 'a', 'g', 'o']
                } else if d == 0 {
                    match due.time {
                        Some(tm) => crate::date::clock_text(tm),
                        None => seq![],
                    }
                } else if 1 <= d <= 6 {
                    match due.time {
                        Some(tm) => if size == Size::Wide {
                            crate::date::weekday_short(due.date.weekday_spec()) + seq![' ']
                                + crate::date::clock_text(tm)
                        } else {
                            crate::date::weekday_short(due.date.weekday_spec())
                        },
                        None => crate::date::weekday_short(due.date.weekday_spec()),
                    }
                } else {
                    crate::date::month_day_text(due.date)
                }
            },
        }
    }
}

pub fn when(task: &Task, today: Date, size: Size) -> (r: String)
    requires
        task.wf(),
        today.wf(),
    ensures
        r@ == when_text(*task, today, size),
{
    let mut s = String::new();
    if task.done() {
        match task.done_on {
            Some(on) => {
                let k = today.days_since(on);
                if k == 0 {
                    proof {
                        reveal_strlit("today");
                    }
                    push_str(&mut s, "today");
                } else if 1 <= k && k <= 6 {
                    push_str(&mut s, on.short_weekday());
                } else {
                    on.push_month_day(&mut s);
                }
                assert(s@ =~= when_text(*task, today, size));
                return s;
            },
            None => {},
        }
    }
    match task.due {
        None => {
            assert(s@ =~= when_text(*task, today, size));
            s
        },
        Some(due) => {
            let d = due.date.days_since(today);
            if d < 0 && task.open() {
                let late = today.days_since(due.date);
                let n = crate::strs::decimal(late as u64);
                push_str(&mut s, n.as_str());
                proof {
                    reveal_strlit("d ago");
                }
                push_str(&mut s, "d ago");
            } else if d == 0 {
                match due.time {
                    Some(tm) => tm.push_clock(&mut s),
                    None => {},
                }
            } else if 1 <= d && d <= 6 {
                push_str(&mut s, due.date.short_weekday());
                match due.time {
                    Some(tm) => {
                        if size == Size::Wide {
                            push_char(&mut s, ' ');
                            tm.push_clock(&mut s);
                        }
                    },
                    None => {},
                }
            } else {
                due.date.push_month_day(&mut s);
            }
            assert(s@ =~= when_text(*task, today, size));
            s
        },
    }
}

/// The band of numbers above the list: the first thing to go, in two steps.
#[derive(Debug, Clone, Copy, PartialEq, Eq, Structural)]
pub enum Band {
    /// The date, the tiles and the week. Five rows.
    Full,
    /// The same numbers on one line, and the rule under them. Two rows.
    Counts,
    /// Nothing, and the footer goes with it.
    Gone,
}

pub open spec fn band_for(height: int, size: Size) -> Band {
    if size != Size::Wide {
        Band::Gone
    } else if height >= 20 {
        Band::Full
    } else if height >= 16 {
        Band::Counts
    } else {
        Band::Gone
    }
}

pub open spec fn band_rows(b: Band) -> int {
    match b {
        Band::Full => 5,
        Band::Counts => 2,
        Band::Gone => 0,
    }
}

impl Band {
    pub fn of(height: u16, size: Size) -> (r: Band)
        ensures
            r == band_for(height as int, size),
    {
        if size != Size::Wide {
            Band::Gone
        } else if height >= 20 {
            Band::Full
        } else if height >= 16 {
            Band::Counts
        } else {
            Band::Gone
        }
    }

    pub fn rows(self) -> (r: u16)
        ensures
            r == (match self {
                Band::Full => 5u16,
                Band::Counts => 2u16,
                Band::Gone => 0u16,
            }),
    {
        match self {
            Band::Full => 5,
            Band::Counts => 2,
            Band::Gone => 0,
        }
    }
}

/// `n` copies of `s`.
pub open spec fn repeated(s: Seq<char>, n: nat) -> Seq<char>
    decreases n,
{
    if n == 0 {
        seq![]
    } else {
        repeated(s, (n - 1) as nat) + s
    }
}

pub(crate) fn push_repeated(out: &mut String, s: &str, n: usize)
    ensures
        final(out)@ == old(out)@ + repeated(s@, n as nat),
{
    let mut i: usize = 0;
    assert(old(out)@ + repeated(s@, 0) =~= old(out)@);
    while i < n
        invariant
            i <= n,
            out@ == old(out)@ + repeated(s@, i as nat),
        decreases n - i,
    {
        push_str(out, s);
        assert(out@ =~= old(out)@ + repeated(s@, (i + 1) as nat));
        i += 1;
    }
}

/// The cell for a day with `n` completions when the busiest day had `peak`:
/// the tallest is always full and an empty day is always the floor.
pub open spec fn spark_level(n: nat, peak: nat) -> nat {
    let up = (n * 7 + peak - 1) / (peak as int);
    if up > 7 {
        7
    } else {
        up as nat
    }
}

pub open spec fn spark_cell(level: nat) -> char {
    if level <= 1 {
        '\u{2581}'
    } else if level == 2 {
        '\u{2582}'
    } else if level == 3 {
        '\u{2583}'
    } else if level == 4 {
        '\u{2585}'
    } else if level == 5 {
        '\u{2586}'
    } else if level == 6 {
        '\u{2587}'
    } else {
        '\u{2588}'
    }
}

pub open spec fn week_peak(week: Seq<usize>) -> nat
    decreases week.len(),
{
    if week.len() == 0 {
        0
    } else {
        let p = week_peak(week.drop_last());
        if week.last() > p {
            week.last() as nat
        } else {
            p
        }
    }
}

/// The seven cells of the week as blocks; `None` under ASCII, where a bar
/// chart of punctuation is not a chart, and `None` for a week with nothing
/// finished.
pub open spec fn sparkline_of(week: Seq<usize>, g: Glyphs) -> Option<Seq<char>> {
    let peak = week_peak(week);
    if g == Glyphs::Ascii || peak == 0 {
        None
    } else {
        Some(week.map_values(|n: usize| spark_cell(spark_level(n as nat, peak))))
    }
}

pub fn sparkline(week: [usize; 7], glyphs: Glyphs) -> (r: Option<String>)
    requires
        forall|i: int| 0 <= i < 7 ==> week@[i] * 7 <= usize::MAX,
    ensures
        match sparkline_of(week@, glyphs) {
            Some(s) => r matches Some(t) && t@ == s,
            None => r is None,
        },
{
    if glyphs == Glyphs::Ascii {
        return None;
    }
    let mut peak: usize = 0;
    let mut i: usize = 0;
    assert(week@.take(0) =~= Seq::<usize>::empty());
    while i < 7
        invariant
            i <= 7,
            peak == week_peak(week@.take(i as int)),
            peak <= usize::MAX,
        decreases 7 - i,
    {
        assert(week@.take(i + 1).drop_last() =~= week@.take(i as int));
        if week[i] > peak {
            peak = week[i];
        }
        i += 1;
    }
    assert(week@.take(7) =~= week@);
    if peak == 0 {
        return None;
    }
    proof {
        lemma_peak_is_max(week@);
    }
    let mut out = String::new();
    let mut k: usize = 0;
    while k < 7
        invariant
            k <= 7,
            peak == week_peak(week@),
            peak > 0,
            forall|i: int| 0 <= i < 7 ==> week@[i] <= peak,
            forall|i: int| 0 <= i < 7 ==> week@[i] * 7 <= usize::MAX,
            out@ == week@.take(k as int).map_values(
                |n: usize| spark_cell(spark_level(n as nat, peak as nat)),
            ),
        decreases 7 - k,
    {
        let n = week[k];
        let q = n * 7 / peak;
        let level = if q >= 7 {
            7
        } else if n * 7 % peak == 0 {
            q
        } else {
            q + 1
        };
        proof {
            lemma_ceil_div((n * 7) as int, peak as int, 7);
        }
        let c = if level <= 1 {
            '\u{2581}'
        } else if level == 2 {
            '\u{2582}'
        } else if level == 3 {
            '\u{2583}'
        } else if level == 4 {
            '\u{2585}'
        } else if level == 5 {
            '\u{2586}'
        } else if level == 6 {
            '\u{2587}'
        } else {
            '\u{2588}'
        };
        push_char(&mut out, c);
        assert(week@.take(k + 1).map_values(|n: usize| spark_cell(spark_level(n as nat, peak as nat)))
            =~= week@.take(k as int).map_values(
            |n: usize| spark_cell(spark_level(n as nat, peak as nat)),
        ).push(c));
        k += 1;
    }
    assert(week@.take(7) =~= week@);
    Some(out)
}

proof fn lemma_peak_is_max(week: Seq<usize>)
    ensures
        forall|i: int| 0 <= i < week.len() ==> week[i] <= week_peak(week),
    decreases week.len(),
{
    if week.len() > 0 {
        lemma_peak_is_max(week.drop_last());
        assert forall|i: int| 0 <= i < week.len() implies week[i] <= week_peak(week) by {
            if i < week.len() - 1 {
                assert(week[i] == week.drop_last()[i]);
            }
        }
    }
}

/// Rounding a quotient up, and where it lands against a cap.
proof fn lemma_ceil_div(x: int, d: int, cap: int)
    requires
        x >= 0,
        d > 0,
        cap >= 0,
    ensures
        x / d >= cap ==> (x + d - 1) / d >= cap,
        x / d < cap && x % d == 0 ==> (x + d - 1) / d == x / d,
        x / d < cap && x % d != 0 ==> (x + d - 1) / d == x / d + 1,
{
    assert(x == d * (x / d) + x % d) by (nonlinear_arith)
        requires
            d > 0,
    ;
    assert(0 <= x % d < d) by (nonlinear_arith)
        requires
            d > 0,
    ;
    let q = x / d;
    let r = x % d;
    if r == 0 {
        assert((x + d - 1) / d == q) by (nonlinear_arith)
            requires
                x == d * q,
                d > 0,
        ;
    } else {
        assert((x + d - 1) / d == q + 1) by (nonlinear_arith)
            requires
                x == d * q + r,
                0 < r < d,
        ;
    }
}

/// A bar `width` cells long at most, for `n` against the longest `peak`:
/// one cell for nothing, never rounded away to nothing for something.
pub open spec fn bar_text(n: nat, peak: nat, width: nat, g: Glyphs) -> Seq<char> {
    if peak == 0 || width == 0 {
        seq![]
    } else if n == 0 {
        block_text(g).1
    } else {
        let up = (n * width + peak - 1) / (peak as int);
        let cells: nat = if up < 1 {
            1
        } else if up > width {
            width
        } else {
            up as nat
        };
        repeated(block_text(g).0, cells)
    }
}

pub fn bar_of(n: usize, peak: usize, width: usize, glyphs: Glyphs) -> (r: String)
    requires
        n * width <= usize::MAX,
    ensures
        r@ == bar_text(n as nat, peak as nat, width as nat, glyphs),
{
    let (full, empty) = glyphs.block();
    let mut out = String::new();
    if peak == 0 || width == 0 {
        return out;
    }
    if n == 0 {
        push_str(&mut out, empty);
        return out;
    }
    let q = n * width / peak;
    let cells = if q >= width {
        width
    } else if n * width % peak == 0 {
        if q < 1 {
            1
        } else {
            q
        }
    } else {
        q + 1
    };
    proof {
        lemma_ceil_div((n * width) as int, peak as int, width as int);
    }
    push_repeated(&mut out, full, cells);
    out
}

/// How far through `of` the count `n` is, over `width` cells with the
/// trough drawn: a fraction needs its denominator.
pub open spec fn gauge_text(n: nat, of: nat, width: nat, g: Glyphs) -> Seq<char> {
    if of == 0 || width == 0 {
        seq![]
    } else {
        let f = n * width / of;
        let filled: nat = if f > width {
            width
        } else {
            f as nat
        };
        repeated(block_text(g).0, filled) + repeated(block_text(g).1, (width - filled) as nat)
    }
}

pub fn gauge(n: usize, of: usize, width: usize, glyphs: Glyphs) -> (r: String)
    requires
        n * width <= usize::MAX,
    ensures
        r@ == gauge_text(n as nat, of as nat, width as nat, glyphs),
{
    let (full, empty) = glyphs.block();
    let mut out = String::new();
    if of == 0 || width == 0 {
        return out;
    }
    let f = n * width / of;
    let filled = if f > width {
        width
    } else {
        f
    };
    push_repeated(&mut out, full, filled);
    push_repeated(&mut out, empty, width - filled);
    out
}

/// How many cells the title bar's progress bar has.
pub const BAR: usize = 8;

/// How many of the progress bar's cells are filled for `done` of `total`.
pub open spec fn filled_cells(done: nat, total: nat) -> nat {
    let cells = done * 8 / total;
    if done > 0 && cells < 1 {
        1
    } else {
        cells
    }
}

/// The two ends a reader will not forgive being wrong: a bar showing nothing
/// when something is done, and a full one with work left.
pub fn filled(done: usize, total: usize) -> (r: usize)
    requires
        total > 0,
        done * 8 <= usize::MAX,
    ensures
        r == filled_cells(done as nat, total as nat),
        done > 0 ==> r >= 1,
        done < total ==> r < BAR,
        done == total ==> r == BAR,
{
    let cells = done * BAR / total;
    assert(done < total ==> done * 8 / (total as int) < 8) by (nonlinear_arith)
        requires
            total > 0,
    ;
    assert(done == total ==> done * 8 / (total as int) == 8) by (nonlinear_arith)
        requires
            total > 0,
    ;
    if done > 0 && cells < 1 {
        1
    } else {
        cells
    }
}

/// The counts in the title bar: the whole sentence when it is wide, the
/// numbers and what is finished when it is not.
pub open spec fn title_counts_text(c: Counts, size: Size, g: Glyphs) -> Seq<char> {
    let dot = punctuation_text(g).1;
    if size == Size::Wide {
        digits(c.open as nat) + " open "@ + dot + seq![' '] + digits(c.overdue as nat)
            + " overdue"@
    } else if c.done > 0 {
        digits(c.open as nat) + seq![' '] + dot + seq![' '] + digits(c.overdue as nat) + "! "@
            + dot + seq![' '] + digits(c.done as nat) + tick_text(g)
    } else {
        digits(c.open as nat) + seq![' '] + dot + seq![' '] + digits(c.overdue as nat) + "!"@
    }
}

pub fn title_counts(counts: Counts, size: Size, glyphs: Glyphs) -> (r: String)
    ensures
        r@ == title_counts_text(counts, size, glyphs),
{
    let (_, dot) = glyphs.punctuation();
    let open = crate::strs::decimal(counts.open as u64);
    let overdue = crate::strs::decimal(counts.overdue as u64);
    let mut s = String::new();
    push_str(&mut s, open.as_str());
    if size == Size::Wide {
        push_str(&mut s, " open ");
        push_str(&mut s, dot);
        push_char(&mut s, ' ');
        push_str(&mut s, overdue.as_str());
        push_str(&mut s, " overdue");
    } else {
        push_char(&mut s, ' ');
        push_str(&mut s, dot);
        push_char(&mut s, ' ');
        push_str(&mut s, overdue.as_str());
        if counts.done > 0 {
            push_str(&mut s, "! ");
            push_str(&mut s, dot);
            push_char(&mut s, ' ');
            let done = crate::strs::decimal(counts.done as u64);
            push_str(&mut s, done.as_str());
            push_str(&mut s, glyphs.tick());
        } else {
            push_str(&mut s, "!");
        }
    }
    assert(s@ =~= title_counts_text(counts, size, glyphs));
    s
}

pub open spec fn radio_text(choice: (Seq<char>, bool), g: Glyphs) -> Seq<char> {
    let (on, off) = if g == Glyphs::Unicode {
        ("\u{25c9}"@, "\u{25cb}"@)
    } else {
        ("(o)"@, "( )"@)
    };
    (if choice.1 {
        on
    } else {
        off
    }) + seq![' '] + choice.0
}

pub open spec fn choice_views(v: Seq<(String, bool)>) -> Seq<(Seq<char>, bool)> {
    v.map_values(|c: (String, bool)| (c.0@, c.1))
}

/// A difference in shape, so the selection survives without colour.
pub fn radios(choices: &[(String, bool)], glyphs: Glyphs) -> (r: String)
    ensures
        r@ == joined(
            choice_views(choices@).map_values(|c: (Seq<char>, bool)| radio_text(c, glyphs)),
            "  "@,
        ),
{
    let (on, off) = match glyphs {
        Glyphs::Unicode => ("\u{25c9}", "\u{25cb}"),
        Glyphs::Ascii => ("(o)", "( )"),
    };
    let ghost all = choice_views(choices@).map_values(|c: (Seq<char>, bool)| radio_text(c, glyphs));
    let mut out = String::new();
    let mut i: usize = 0;
    assert(all.take(0) =~= Seq::<Seq<char>>::empty());
    while i < choices.len()
        invariant
            i <= choices@.len(),
            all == choice_views(choices@).map_values(|c: (Seq<char>, bool)| radio_text(c, glyphs)),
            on@ == (if glyphs == Glyphs::Unicode {
                "\u{25c9}"@
            } else {
                "(o)"@
            }),
            off@ == (if glyphs == Glyphs::Unicode {
                "\u{25cb}"@
            } else {
                "( )"@
            }),
            out@ == joined(all.take(i as int), "  "@),
        decreases choices@.len() - i,
    {
        let mut one = String::new();
        push_str(&mut one, if choices[i].1 {
            on
        } else {
            off
        });
        push_char(&mut one, ' ');
        push_str(&mut one, choices[i].0.as_str());
        assert(one@ =~= all[i as int]);
        crate::text::push_joined_word(&mut out, Ghost(all.take(i as int)), i, "  ", one.as_str());
        assert(all.take(i as int).push(one@) =~= all.take(i + 1));
        i += 1;
    }
    assert(all.take(choices@.len() as int) =~= all);
    out
}

/// A group's name and how many tasks are in it; a group with no name gets
/// no count either.
pub open spec fn heading_text(title: Seq<char>, count: nat, g: Glyphs) -> Seq<char> {
    let name = clean(title);
    if name.len() == 0 {
        name
    } else {
        name + seq![' '] + punctuation_text(g).1 + seq![' '] + digits(count)
    }
}

pub fn heading(title: &str, count: usize, glyphs: Glyphs) -> (r: String)
    ensures
        r@ == heading_text(title@, count as nat, glyphs),
{
    let name = plain(title);
    if name.as_str().unicode_len() == 0 {
        return name;
    }
    let (_, dot) = glyphs.punctuation();
    let mut s = name;
    push_char(&mut s, ' ');
    push_str(&mut s, dot);
    push_char(&mut s, ' ');
    let n = crate::strs::decimal(count as u64);
    push_str(&mut s, n.as_str());
    s
}

/// The width of one character on its own.
pub open spec fn char_columns(c: char) -> nat {
    display_width(seq![c])
}

fn char_cols(c: char) -> (r: usize)
    ensures
        r == char_columns(c),
{
    let mut s = String::new();
    push_char(&mut s, c);
    assert(s@ =~= seq![c]);
    columns(s.as_str())
}

/// The longest front of `cs` whose characters fit in `limit` columns.
pub open spec fn lead_take(cs: Seq<char>, limit: nat) -> Seq<char>
    decreases cs.len(),
{
    if cs.len() == 0 || char_columns(cs[0]) > limit {
        seq![]
    } else {
        seq![cs[0]] + lead_take(cs.drop_first(), (limit - char_columns(cs[0])) as nat)
    }
}

/// The longest back of `cs` whose characters fit in `limit` columns.
pub open spec fn tail_take(cs: Seq<char>, limit: nat) -> Seq<char>
    decreases cs.len(),
{
    if cs.len() == 0 || char_columns(cs.last()) > limit {
        seq![]
    } else {
        tail_take(cs.drop_last(), (limit - char_columns(cs.last())) as nat).push(cs.last())
    }
}

pub open spec fn lead_text(t: Seq<char>, limit: nat) -> Seq<char> {
    if display_width(t) <= limit {
        t
    } else {
        lead_take(t, limit)
    }
}

pub open spec fn tail_text(t: Seq<char>, limit: nat) -> Seq<char> {
    if display_width(t) <= limit {
        t
    } else {
        tail_take(t, limit)
    }
}

/// The first `limit` columns, and no ellipsis: what sits after the caret in
/// the scrolling input field.
pub fn lead(text: &str, limit: usize) -> (r: String)
    ensures
        r@ == lead_text(text@, limit as nat),
{
    if columns(text) <= limit {
        let mut s = String::new();
        push_str(&mut s, text);
        return s;
    }
    let v = chars_of(text);
    let mut out = String::new();
    let mut used: usize = 0;
    let mut i: usize = 0;
    let mut full = false;
    assert(v@.skip(0) =~= v@);
    assert(out@ + lead_take(v@, limit as nat) =~= lead_take(v@, limit as nat));
    while i < v.len() && !full
        invariant
            i <= v@.len(),
            used <= limit,
            out@ + lead_take(v@.skip(i as int), (limit - used) as nat) == lead_take(v@, limit as nat),
            full ==> lead_take(v@.skip(i as int), (limit - used) as nat) =~= Seq::<char>::empty(),
        decreases v@.len() - i + if full {
            0int
        } else {
            1int
        },
    {
        let w = char_cols(v[i]);
        let ghost rest = v@.skip(i as int);
        assert(rest[0] == v@[i as int]);
        if w > limit - used {
            assert(lead_take(rest, (limit - used) as nat) =~= Seq::<char>::empty());
            full = true;
        } else {
            let ghost before = out@;
            push_char(&mut out, v[i]);
            assert(rest.drop_first() =~= v@.skip(i + 1));
            assert(before + lead_take(rest, (limit - used) as nat) =~= out@ + lead_take(
                v@.skip(i + 1),
                (limit - used - w) as nat,
            ));
            used = used + w;
            i += 1;
        }
    }
    proof {
        if i == v@.len() {
            assert(lead_take(v@.skip(i as int), (limit - used) as nat) =~= Seq::<char>::empty());
        }
    }
    assert(out@ =~= lead_take(v@, limit as nat));
    out
}

/// The last `limit` columns: the input field scrolls rather than cut off
/// what is under the caret.
pub fn tail(text: &str, limit: usize) -> (r: String)
    ensures
        r@ == tail_text(text@, limit as nat),
{
    if columns(text) <= limit {
        let mut s = String::new();
        push_str(&mut s, text);
        return s;
    }
    let v = chars_of(text);
    let mut used: usize = 0;
    let mut i: usize = v.len();
    let mut full = false;
    assert(v@.take(v@.len() as int) =~= v@);
    assert(tail_take(v@, limit as nat) + v@.skip(v@.len() as int) =~= tail_take(v@, limit as nat));
    while i > 0 && !full
        invariant
            i <= v@.len(),
            used <= limit,
            tail_take(v@.take(i as int), (limit - used) as nat) + v@.skip(i as int) == tail_take(
                v@,
                limit as nat,
            ),
            full ==> tail_take(v@.take(i as int), (limit - used) as nat) =~= Seq::<char>::empty(),
        decreases i + if full {
            0int
        } else {
            1int
        },
    {
        let w = char_cols(v[i - 1]);
        let ghost front = v@.take(i as int);
        assert(front.last() == v@[i - 1]);
        if w > limit - used {
            assert(tail_take(front, (limit - used) as nat) =~= Seq::<char>::empty());
            full = true;
        } else {
            assert(front.drop_last() =~= v@.take(i - 1));
            assert(v@.skip(i - 1) =~= seq![v@[i - 1]] + v@.skip(i as int));
            assert(tail_take(v@.take(i - 1), (limit - used - w) as nat).push(v@[i - 1]) + v@.skip(
                i as int,
            ) =~= tail_take(v@.take(i - 1), (limit - used - w) as nat) + v@.skip(i - 1));
            used = used + w;
            i -= 1;
        }
    }
    proof {
        if i == 0 {
            assert(tail_take(v@.take(0), (limit - used) as nat) =~= Seq::<char>::empty());
        }
    }
    let kept = crate::strs::slice_chars(&v, i, v.len());
    assert(kept@ =~= v@.skip(i as int));
    assert(kept@ =~= tail_take(v@, limit as nat));
    string_of(&kept)
}

/// Cut to `limit` columns, ending in the ellipsis; with no room even for
/// the ellipsis, the front of the text alone.
pub open spec fn shorten_text(t: Seq<char>, limit: nat, g: Glyphs) -> Seq<char> {
    let e = ellipsis_text(g);
    if display_width(t) <= limit {
        t
    } else if limit <= display_width(e) {
        lead_text(t, limit)
    } else {
        lead_text(t, (limit - display_width(e)) as nat) + e
    }
}

pub fn shorten(text: &str, limit: usize, glyphs: Glyphs) -> (r: String)
    ensures
        r@ == shorten_text(text@, limit as nat, glyphs),
{
    if columns(text) <= limit {
        let mut s = String::new();
        push_str(&mut s, text);
        return s;
    }
    let ellipsis = glyphs.ellipsis();
    let e = columns(ellipsis);
    if limit <= e {
        return lead(text, limit);
    }
    let mut out = lead(text, limit - e);
    push_str(&mut out, ellipsis);
    out
}

/// One entry of the hint bar: ` [key] what`.
pub open spec fn hint_entry(key: Seq<char>, what: Seq<char>) -> Seq<char> {
    " ["@ + key + "] "@ + what
}

pub open spec fn hint_entries(g: Glyphs) -> Seq<Seq<char>> {
    seq![
        hint_entry("j k"@, "move"@),
        hint_entry("spc"@, "done"@),
        hint_entry("a"@, "add"@),
        hint_entry(enter_text(g), "edit"@),
        hint_entry("d"@, "cancel"@),
        hint_entry("p"@, "later"@),
        hint_entry("y"@, "copy"@),
        hint_entry("s"@, "stats"@),
    ]
}

/// `? keys` and `q quit`, pinned to the end of the bar.
pub open spec fn hint_tail() -> Seq<char> {
    hint_entry("?"@, "keys"@) + hint_entry("q"@, "quit"@)
}

/// The entries from `k` on that fit in `width` after `out`, in order, until
/// the first that does not.
pub open spec fn hint_fill(es: Seq<Seq<char>>, width: nat, k: int, out: Seq<char>) -> Seq<char>
    decreases es.len() - k,
{
    if k < 0 || k >= es.len() {
        out
    } else if 1 + display_width(out) + display_width(es[k]) + display_width(hint_tail()) > width {
        out
    } else {
        hint_fill(es, width, k + 1, out + es[k])
    }
}

pub open spec fn hints_text(width: nat, g: Glyphs) -> Seq<char> {
    seq![' '] + trim_start(hint_fill(hint_entries(g), width, 0, seq![]) + hint_tail())
}

fn hint_entry_text(key: &str, what: &str) -> (r: String)
    ensures
        r@ == hint_entry(key@, what@),
{
    let mut s = String::new();
    push_str(&mut s, " [");
    push_str(&mut s, key);
    push_str(&mut s, "] ");
    push_str(&mut s, what);
    s
}

/// The hint bar, filled to whatever the pane gives it; the way to the rest
/// of the keys and the way out are always on it.
pub fn hints(width: usize, glyphs: Glyphs) -> (r: String)
    ensures
        r@ == hints_text(width as nat, glyphs),
{
    let tail = hint_entry_text("?", "keys");
    let mut tail = tail;
    let quit = hint_entry_text("q", "quit");
    push_str(&mut tail, quit.as_str());
    assert(tail@ =~= hint_tail());
    let entries: Vec<String> = vec![
        hint_entry_text("j k", "move"),
        hint_entry_text("spc", "done"),
        hint_entry_text("a", "add"),
        hint_entry_text(glyphs.enter(), "edit"),
        hint_entry_text("d", "cancel"),
        hint_entry_text("p", "later"),
        hint_entry_text("y", "copy"),
        hint_entry_text("s", "stats"),
    ];
    let ghost es = hint_entries(glyphs);
    assert(crate::model::views(entries@) =~= es);
    let tw = columns(tail.as_str());
    let mut out = String::new();
    let mut k: usize = 0;
    let mut full = false;
    while k < 8 && !full
        invariant
            k <= 8,
            entries@.len() == 8,
            crate::model::views(entries@) == es,
            es == hint_entries(glyphs),
            tw == display_width(hint_tail()),
            hint_fill(es, width as nat, k as int, out@) == hint_fill(es, width as nat, 0, seq![]),
            full ==> hint_fill(es, width as nat, k as int, out@) == out@,
        decreases 8 - k + if full {
            0int
        } else {
            1int
        },
    {
        let ow = columns(out.as_str());
        let ew = columns(entries[k].as_str());
        assert(entries@[k as int]@ == es[k as int]);
        if width < 1 || ow > width - 1 || ew > width - 1 - ow || tw > width - 1 - ow - ew {
            full = true;
        } else {
            push_str(&mut out, entries[k].as_str());
            k += 1;
        }
    }
    push_str(&mut out, tail.as_str());
    let v = chars_of(out.as_str());
    let lead_spaces = crate::strs::leading_space(&v);
    let rest = crate::strs::slice_chars(&v, lead_spaces, v.len());
    let mut r = String::new();
    push_char(&mut r, ' ');
    crate::strs::push_chars(&mut r, &rest);
    assert(r@ =~= hints_text(width as nat, glyphs));
    r
}

/// The tiles: a big number over a small label, the same numbers `status`
/// computes, and the week when it can be drawn.
pub open spec fn tiles_of(c: Counts, week: Seq<usize>, g: Glyphs) -> Seq<(Seq<char>, Seq<char>)> {
    let (dash, dot) = punctuation_text(g);
    let total = c.open + c.done;
    let base = seq![
        (digits(c.overdue as nat), "OVERDUE"@),
        (digits(c.today as nat), "TODAY"@),
        (digits(c.open as nat), "OPEN"@),
    ];
    let with_done = if total > 0 {
        base.push(
            (
                digits(c.done as nat) + seq!['/'] + digits(total as nat),
                "DONE "@ + dot + seq![' '] + digits((c.done * 100 / (total as int)) as nat) + seq!['%'],
            ),
        )
    } else {
        base
    };
    match sparkline_of(week, g) {
        Some(bars) => with_done.push((bars, "MON "@ + dash + " SUN"@)),
        None => with_done,
    }
}

pub open spec fn pair_views(v: Seq<(String, String)>) -> Seq<(Seq<char>, Seq<char>)> {
    v.map_values(|p: (String, String)| (p.0@, p.1@))
}

pub fn tiles(counts: Counts, week: [usize; 7], glyphs: Glyphs) -> (r: Vec<(String, String)>)
    requires
        counts.open + counts.done <= usize::MAX,
        counts.done * 100 <= usize::MAX,
        forall|i: int| 0 <= i < 7 ==> week@[i] * 7 <= usize::MAX,
    ensures
        pair_views(r@) == tiles_of(counts, week@, glyphs),
{
    let (dash, dot) = glyphs.punctuation();
    let total = counts.open + counts.done;
    let mut out: Vec<(String, String)> = Vec::new();
    let mut l = String::new();
    push_str(&mut l, "OVERDUE");
    out.push((crate::strs::decimal(counts.overdue as u64), l));
    let mut l = String::new();
    push_str(&mut l, "TODAY");
    out.push((crate::strs::decimal(counts.today as u64), l));
    let mut l = String::new();
    push_str(&mut l, "OPEN");
    out.push((crate::strs::decimal(counts.open as u64), l));
    let ghost (dash_s, dot_s) = punctuation_text(glyphs);
    let ghost base = seq![
        (digits(counts.overdue as nat), "OVERDUE"@),
        (digits(counts.today as nat), "TODAY"@),
        (digits(counts.open as nat), "OPEN"@),
    ];
    assert(pair_views(out@) =~= base);
    if total > 0 {
        let mut n = crate::strs::decimal(counts.done as u64);
        push_char(&mut n, '/');
        let t = crate::strs::decimal(total as u64);
        push_str(&mut n, t.as_str());
        let mut l = String::new();
        push_str(&mut l, "DONE ");
        push_str(&mut l, dot);
        push_char(&mut l, ' ');
        let pct = crate::strs::decimal((counts.done * 100 / total) as u64);
        push_str(&mut l, pct.as_str());
        push_char(&mut l, '%');
        assert(n@ =~= digits(counts.done as nat) + seq!['/'] + digits(total as nat));
        assert(l@ =~= "DONE "@ + dot_s + seq![' '] + digits((counts.done * 100 / (total as int)) as nat)
            + seq!['%']);
        let ghost before = pair_views(out@);
        out.push((n, l));
        assert(pair_views(out@) =~= before.push((n@, l@)));
    }
    let ghost with_done = pair_views(out@);
    assert(with_done == (if total > 0 {
        base.push(
            (
                digits(counts.done as nat) + seq!['/'] + digits(total as nat),
                "DONE "@ + dot_s + seq![' '] + digits((counts.done * 100 / (total as int)) as nat) + seq!['%'],
            ),
        )
    } else {
        base
    }));
    match sparkline(week, glyphs) {
        Some(bars) => {
            let mut l = String::new();
            push_str(&mut l, "MON ");
            push_str(&mut l, dash);
            push_str(&mut l, " SUN");
            let ghost bv = bars@;
            out.push((bars, l));
            assert(pair_views(out@) =~= with_done.push((bv, "MON "@ + dash_s + " SUN"@)));
        },
        None => {},
    }
    assert(pair_views(out@) =~= tiles_of(counts, week@, glyphs));
    out
}

/// A text padded with spaces to `cell` columns.
pub open spec fn padded_to(t: Seq<char>, cell: nat) -> Seq<char> {
    t + repeated(seq![' '], (cell - display_width(t)) as nat)
}

/// The tiles from `k` on laid across `width`, each as wide as its wider row
/// plus a gutter of four, until the first that will not fit whole.
pub open spec fn tile_fill(
    ts: Seq<(Seq<char>, Seq<char>)>,
    width: nat,
    k: int,
    rows: (Seq<char>, Seq<char>),
) -> (Seq<char>, Seq<char>)
    decreases ts.len() - k,
{
    if k < 0 || k >= ts.len() {
        rows
    } else {
        let wide = if display_width(ts[k].0) >= display_width(ts[k].1) {
            display_width(ts[k].0)
        } else {
            display_width(ts[k].1)
        };
        let cell = wide + 4;
        if display_width(rows.1) + cell > width {
            rows
        } else {
            tile_fill(
                ts,
                width,
                k + 1,
                (rows.0 + padded_to(ts[k].0, cell), rows.1 + padded_to(ts[k].1, cell)),
            )
        }
    }
}

/// Lays the tiles across the width: the number row and the label row, four
/// spaces in. A tile that will not fit whole is not drawn at all.
pub fn tile_rows(tiles: &[(String, String)], width: usize) -> (r: (String, String))
    ensures
        (r.0@, r.1@) == tile_fill(
            pair_views(tiles@),
            width as nat,
            0,
            (repeated(seq![' '], 4), repeated(seq![' '], 4)),
        ),
{
    let mut numbers = String::new();
    push_repeated(&mut numbers, " ", 4);
    let mut labels = String::new();
    push_repeated(&mut labels, " ", 4);
    proof {
        reveal_strlit(" ");
    }
    assert(" "@ =~= seq![' ']);
    let ghost ts = pair_views(tiles@);
    let mut k: usize = 0;
    let mut full = false;
    while k < tiles.len() && !full
        invariant
            k <= tiles@.len(),
            ts == pair_views(tiles@),
            " "@ == seq![' '],
            tile_fill(ts, width as nat, k as int, (numbers@, labels@)) == tile_fill(
                ts,
                width as nat,
                0,
                (repeated(seq![' '], 4), repeated(seq![' '], 4)),
            ),
            full ==> tile_fill(ts, width as nat, k as int, (numbers@, labels@)) == (
            numbers@,
            labels@,
            ),
        decreases tiles@.len() - k + if full {
            0int
        } else {
            1int
        },
    {
        let nw = columns(tiles[k].0.as_str());
        let lw = columns(tiles[k].1.as_str());
        let wide = if nw >= lw {
            nw
        } else {
            lw
        };
        let used = columns(labels.as_str());
        assert(ts[k as int] == (tiles@[k as int].0@, tiles@[k as int].1@));
        if wide > width || 4 > width - wide || used > width - wide - 4 {
            full = true;
        } else {
            let cell = wide + 4;
            let ghost n0 = numbers@;
            let ghost l0 = labels@;
            push_str(&mut numbers, tiles[k].0.as_str());
            push_repeated(&mut numbers, " ", cell - nw);
            push_str(&mut labels, tiles[k].1.as_str());
            push_repeated(&mut labels, " ", cell - lw);
            assert(numbers@ =~= n0 + padded_to(ts[k as int].0, cell as nat));
            assert(labels@ =~= l0 + padded_to(ts[k as int].1, cell as nat));
            k += 1;
        }
    }
    (numbers, labels)
}

/// The three parts of a date field.
#[derive(Debug, Clone, Copy, PartialEq, Eq, Structural)]
pub enum DatePart {
    Day,
    Month,
    Year,
}

/// `DD MM YYYY` with one part under the cursor. Held as three numbers
/// rather than as a date, because a date being edited passes through states
/// a date cannot hold: the 31st on its way to a month with thirty days.
#[derive(Debug, Clone, Copy, PartialEq, Eq, Structural)]
pub struct DateField {
    pub day: u32,
    pub month: u32,
    pub year: i32,
    pub part: DatePart,
    /// Digits typed into `part` since it took the cursor.
    pub digits: u32,
}

/// How many days the month has, as the calendar says; 28 for a month the
/// calendar does not have.
pub open spec fn days_in_spec(y: int, m: int) -> int {
    if 1 <= m <= 12 && min_year() <= y <= max_year() {
        month_length(y, m)
    } else {
        28
    }
}

/// Asked of the calendar rather than of a table.
pub fn days_in(year: i32, month: u32) -> (r: u32)
    ensures
        r == days_in_spec(year as int, month as int),
{
    let mut d: u32 = 31;
    while d >= 29
        invariant
            28 <= d <= 31,
            forall|k: int| d < k <= 31 ==> !valid_ymd(year as int, month as int, k),
        decreases d,
    {
        if Date::from_ymd(year, month, d).is_some() {
            assert(d < 31 ==> !valid_ymd(year as int, month as int, d + 1));
            return d;
        }
        d -= 1;
    }
    assert(!valid_ymd(year as int, month as int, 29));
    28
}

pub open spec fn clamp(v: int, lo: int, hi: int) -> int {
    if v < lo {
        lo
    } else if v > hi {
        hi
    } else {
        v
    }
}

/// The field with its three numbers put back into a date: month and year
/// clamped to their ranges, the day to the month it has landed in.
pub open spec fn settled(f: DateField) -> DateField {
    let m = clamp(f.month as int, 1, 12);
    let y = clamp(f.year as int, 1970, 9999);
    DateField {
        month: m as u32,
        year: y as i32,
        day: clamp(f.day as int, 1, days_in_spec(y, m)) as u32,
        ..f
    }
}

pub open spec fn part_max(f: DateField) -> int {
    match f.part {
        DatePart::Day => days_in_spec(f.year as int, f.month as int),
        DatePart::Month => 12,
        DatePart::Year => 9999,
    }
}

pub open spec fn part_width(p: DatePart) -> int {
    match p {
        DatePart::Year => 4,
        _ => 2,
    }
}

pub open spec fn part_value(f: DateField) -> int {
    match f.part {
        DatePart::Day => f.day as int,
        DatePart::Month => f.month as int,
        DatePart::Year => f.year as int,
    }
}

pub open spec fn part_index(p: DatePart) -> int {
    match p {
        DatePart::Day => 0,
        DatePart::Month => 1,
        DatePart::Year => 2,
    }
}

pub open spec fn next_part(p: DatePart, forward: bool) -> DatePart {
    match (p, forward) {
        (DatePart::Day, true) => DatePart::Month,
        (DatePart::Month, true) => DatePart::Year,
        (DatePart::Year, false) => DatePart::Month,
        (DatePart::Month, false) => DatePart::Day,
        (q, _) => q,
    }
}

/// The cursor moved one part along, the field settled on the way out.
pub open spec fn moved(f: DateField, forward: bool) -> DateField {
    DateField { part: next_part(f.part, forward), digits: 0, ..settled(f) }
}

/// What the field keeps between keystrokes: a part being typed holds what
/// was typed, which is never more than the part takes.
pub open spec fn field_wf(f: DateField) -> bool {
    &&& f.digits < part_width(f.part)
    &&& f.digits > 0 ==> 0 <= part_value(f) <= part_max(f)
}

/// One step around `low..=high`, in either direction.
pub open spec fn wrapped(value: int, by: int, low: int, high: int) -> int {
    let span = high - low + 1;
    low + (value - low + by) % span
}

fn wrap(value: u32, by: i32, low: u32, high: u32) -> (r: u32)
    requires
        low <= high,
        high <= i32::MAX,
        i32::MIN <= value - low + by <= i32::MAX,
    ensures
        r == wrapped(value as int, by as int, low as int, high as int),
        low <= r <= high,
{
    let span: i64 = (high - low + 1) as i64;
    let x: i64 = value as i64 - low as i64 + by as i64;
    let at: i64 = if x >= 0 {
        x % span
    } else {
        let m = (-x - 1) % span;
        span - 1 - m
    };
    proof {
        let xi = x as int;
        let si = span as int;
        if xi < 0 {
            let m = (-xi - 1) % si;
            assert(0 <= m < si) by (nonlinear_arith)
                requires
                    si > 0,
                    m == (-xi - 1) % si,
            ;
            assert((-xi - 1) == si * ((-xi - 1) / si) + m) by (nonlinear_arith)
                requires
                    si > 0,
                    m == (-xi - 1) % si,
            ;
            let q = (-xi - 1) / si;
            assert(xi == si * (-q - 1) + (si - 1 - m)) by (nonlinear_arith)
                requires
                    (-xi - 1) == si * q + m,
            ;
            assert(xi % si == si - 1 - m) by (nonlinear_arith)
                requires
                    xi == si * (-q - 1) + (si - 1 - m),
                    0 <= si - 1 - m < si,
            ;
        }
    }
    (low as i64 + at) as u32
}

impl DateField {
    pub fn new(date: Date) -> (r: DateField)
        ensures
            r == (DateField {
                day: date.day,
                month: date.month,
                year: date.year,
                part: DatePart::Day,
                digits: 0,
            }),
            field_wf(r),
    {
        DateField { day: date.day, month: date.month, year: date.year, part: DatePart::Day, digits: 0 }
    }

    /// Puts the three numbers back into a date. A part being typed passes
    /// through states a date cannot hold, and this is where each one ends.
    pub fn settle(&mut self)
        ensures
            *final(self) == settled(*old(self)),
    {
        if self.month < 1 {
            self.month = 1;
        } else if self.month > 12 {
            self.month = 12;
        }
        if self.year < 1970 {
            self.year = 1970;
        } else if self.year > 9999 {
            self.year = 9999;
        }
        let last = days_in(self.year, self.month);
        if self.day < 1 {
            self.day = 1;
        } else if self.day > last {
            self.day = last;
        }
    }

    /// Always a real day: the parts are only ever read through `settle`.
    pub fn date(self) -> (r: Date)
        ensures
            r.wf(),
            r.year == settled(self).year,
            r.month == settled(self).month,
            r.day == settled(self).day,
    {
        let mut f = self;
        f.settle();
        match Date::from_ymd(f.year, f.month, f.day) {
            Some(d) => d,
            None => Date { year: 1970, month: 1, day: 1 },
        }
    }

    /// The cursor one part along; it stops at the ends rather than cycling.
    pub fn move_to(&mut self, forward: bool)
        ensures
            *final(self) == moved(*old(self), forward),
            field_wf(*final(self)),
    {
        self.settle();
        self.digits = 0;
        self.part = match (self.part, forward) {
            (DatePart::Day, true) => DatePart::Month,
            (DatePart::Month, true) => DatePart::Year,
            (DatePart::Year, false) => DatePart::Month,
            (DatePart::Month, false) => DatePart::Day,
            (part, _) => part,
        };
    }
}

/// Whether `step` by `by` stays inside the integers it counts in.
pub open spec fn step_fits(f: DateField, by: int) -> bool {
    let s = settled(f);
    match f.part {
        DatePart::Day => s.day - 1 + by <= i32::MAX,
        DatePart::Month => s.month - 1 + by <= i32::MAX,
        DatePart::Year => i32::MIN <= s.year + by <= i32::MAX,
    }
}

pub open spec fn min_of(a: int, b: int) -> int {
    if a <= b {
        a
    } else {
        b
    }
}

/// Up or down on the part under the cursor: the day and the month wrap,
/// the year stops at its ends, and the day stays inside its month.
pub open spec fn stepped(f: DateField, by: int) -> DateField {
    let s = settled(f);
    match f.part {
        DatePart::Day => DateField {
            day: wrapped(s.day as int, by, 1, days_in_spec(s.year as int, s.month as int)) as u32,
            digits: 0,
            ..s
        },
        DatePart::Month => {
            let m = wrapped(s.month as int, by, 1, 12);
            DateField {
                month: m as u32,
                day: min_of(s.day as int, days_in_spec(s.year as int, m)) as u32,
                digits: 0,
                ..s
            }
        },
        DatePart::Year => {
            let y = clamp(s.year + by, 1970, 9999);
            DateField {
                year: y as i32,
                day: min_of(s.day as int, days_in_spec(y, s.month as int)) as u32,
                digits: 0,
                ..s
            }
        },
    }
}

/// One digit of `DDMMYYYY` typed into the field. A part that is full, or
/// that could not take another digit, hands the cursor on; a digit that
/// would make the part impossible starts the next one instead, and in the
/// year it has nowhere to go.
pub open spec fn digit_typed(f: DateField, d: int) -> DateField
    decreases 2 - part_index(f.part),
{
    let next = if f.digits == 0 {
        d
    } else {
        part_value(f) * 10 + d
    };
    if next > part_max(f) {
        if f.part == DatePart::Year || part_index(f.part) >= 2 {
            f
        } else {
            digit_typed(moved(f, true), d)
        }
    } else {
        let g = match f.part {
            DatePart::Day => DateField { day: next as u32, digits: (f.digits + 1) as u32, ..f },
            DatePart::Month => DateField { month: next as u32, digits: (f.digits + 1) as u32, ..f },
            DatePart::Year => DateField { year: next as i32, digits: (f.digits + 1) as u32, ..f },
        };
        if g.digits == part_width(f.part) || next * 10 > part_max(f) {
            moved(g, true)
        } else {
            g
        }
    }
}

impl DateField {
    pub fn step(&mut self, by: i32)
        requires
            step_fits(*old(self), by as int),
        ensures
            *final(self) == stepped(*old(self), by as int),
            field_wf(*final(self)),
    {
        self.settle();
        self.digits = 0;
        match self.part {
            DatePart::Day => {
                let last = days_in(self.year, self.month);
                self.day = wrap(self.day, by, 1, last);
            },
            DatePart::Month => {
                self.month = wrap(self.month, by, 1, 12);
                let last = days_in(self.year, self.month);
                if self.day > last {
                    self.day = last;
                }
            },
            DatePart::Year => {
                let y = self.year + by;
                self.year = if y < 1970 {
                    1970
                } else if y > 9999 {
                    9999
                } else {
                    y
                };
                let last = days_in(self.year, self.month);
                if self.day > last {
                    self.day = last;
                }
            },
        }
    }

    pub fn digit(&mut self, d: u32)
        requires
            d < 10,
            field_wf(*old(self)),
        ensures
            *final(self) == digit_typed(*old(self), d as int),
            field_wf(*final(self)),
        decreases 2 - part_index(old(self).part),
    {
        let (max, width): (u32, u32) = match self.part {
            DatePart::Day => (days_in(self.year, self.month), 2),
            DatePart::Month => (12, 2),
            DatePart::Year => (9999, 4),
        };
        let next: u32 = if self.digits == 0 {
            d
        } else {
            let current: u32 = match self.part {
                DatePart::Day => self.day,
                DatePart::Month => self.month,
                DatePart::Year => self.year as u32,
            };
            current * 10 + d
        };
        if next > max {
            if self.part == DatePart::Year {
                return;
            }
            self.move_to(true);
            self.digit(d);
            return;
        }
        self.digits = self.digits + 1;
        match self.part {
            DatePart::Day => self.day = next,
            DatePart::Month => self.month = next,
            DatePart::Year => self.year = next as i32,
        }
        if self.digits == width || next * 10 > max {
            self.move_to(true);
        }
    }
}

/// A part as drawn: `{:02}` for the day and the month, `{:04}` for the year.
pub open spec fn year_cell(y: int) -> Seq<char> {
    if y >= 0 {
        padded(y as nat, 4)
    } else {
        seq!['-'] + padded((-y) as nat, 3)
    }
}

/// The brackets are always there and always round exactly one part, so the
/// row is the same width wherever the cursor is.
pub open spec fn cell_text(chosen: bool, t: Seq<char>) -> Seq<char> {
    if chosen {
        seq!['['] + t + seq![']']
    } else {
        seq![' '] + t + seq![' ']
    }
}

fn cell(chosen: bool, t: String) -> (r: String)
    ensures
        r@ == cell_text(chosen, t@),
{
    let mut s = String::new();
    push_char(&mut s, if chosen {
        '['
    } else {
        ' '
    });
    push_str(&mut s, t.as_str());
    push_char(&mut s, if chosen {
        ']'
    } else {
        ' '
    });
    s
}

impl DateField {
    /// The three parts as they are drawn: `[13] 08  2026`.
    pub fn cells(self) -> (r: [(DatePart, String); 3])
        ensures
            r@[0].0 == DatePart::Day && r@[0].1@ == cell_text(
                self.part == DatePart::Day,
                padded(self.day as nat, 2),
            ),
            r@[1].0 == DatePart::Month && r@[1].1@ == cell_text(
                self.part == DatePart::Month,
                padded(self.month as nat, 2),
            ),
            r@[2].0 == DatePart::Year && r@[2].1@ == cell_text(
                self.part == DatePart::Year,
                year_cell(self.year as int),
            ),
    {
        let (day, month, year) = self.cell_texts();
        [(DatePart::Day, day), (DatePart::Month, month), (DatePart::Year, year)]
    }

    /// The day, month and year cells, in that order.
    pub(crate) fn cell_texts(self) -> (r: (String, String, String))
        ensures
            r.0@ == cell_text(self.part == DatePart::Day, padded(self.day as nat, 2)),
            r.1@ == cell_text(self.part == DatePart::Month, padded(self.month as nat, 2)),
            r.2@ == cell_text(self.part == DatePart::Year, year_cell(self.year as int)),
    {
        let day = crate::strs::zero_padded(self.day as u64, 2);
        let month = crate::strs::zero_padded(self.month as u64, 2);
        let year = if self.year >= 0 {
            crate::strs::zero_padded(self.year as u64, 4)
        } else {
            let mut s = String::new();
            push_char(&mut s, '-');
            let neg: i64 = -(self.year as i64);
            let t = crate::strs::zero_padded(neg as u64, 3);
            push_str(&mut s, t.as_str());
            s
        };
        (
            cell(self.part == DatePart::Day, day),
            cell(self.part == DatePart::Month, month),
            cell(self.part == DatePart::Year, year),
        )
    }
}

/// The law the field exists for: whatever was typed into it, the date it
/// hands back is a real day, between 1970 and 9999.
pub proof fn law_the_field_is_always_a_real_day(f: DateField)
    ensures
        valid_ymd(settled(f).year as int, settled(f).month as int, settled(f).day as int),
        1970 <= settled(f).year <= 9999,
{
}

/// Why the input box is open, and so what enter will do with its line.
#[derive(Debug, Clone, PartialEq, Eq)]
pub enum Purpose {
    /// A new task, for the capture target.
    Add,
    /// Also a new task, filled in from the line under the cursor.
    Copy,
    /// The raw line being rewritten.
    Edit(String),
    /// The raw line whose date is moving: what is typed is a length of time.
    Postpone(String),
}

impl Purpose {
    /// The line this is about, as the file has it; `None` for a new task.
    pub fn raw(&self) -> (r: Option<&str>)
        ensures
            match *self {
                Purpose::Add | Purpose::Copy => r is None,
                Purpose::Edit(raw) | Purpose::Postpone(raw) => r matches Some(t) && t@ == raw@,
            },
    {
        match self {
            Purpose::Add | Purpose::Copy => None,
            Purpose::Edit(raw) | Purpose::Postpone(raw) => Some(raw.as_str()),
        }
    }

    /// Upper case, the way the group headings are: the tool's own word.
    pub fn label(&self) -> (r: &'static str)
        ensures
            r@ == match *self {
                Purpose::Add => "ADD"@,
                Purpose::Copy => "COPY"@,
                Purpose::Edit(_) => "EDIT"@,
                Purpose::Postpone(_) => "PUT OFF"@,
            },
    {
        match self {
            Purpose::Add => "ADD",
            Purpose::Copy => "COPY",
            Purpose::Edit(_) => "EDIT",
            Purpose::Postpone(_) => "PUT OFF",
        }
    }
}

/// The line with its first `@word` swapped for `with`, or `with` appended
/// when there is none. A word that was not understood is still the user's,
/// so exactly one word is replaced and the spacing around it is left alone.
pub open spec fn replaced_date(t: Seq<char>, with: Seq<char>) -> Seq<char> {
    let sp = spans(t);
    if exists|k: int| 0 <= k < sp.len() && t[sp[k].0] == '@' {
        let k = first_at_word(t, sp, 0);
        t.take(sp[k].0) + with + t.skip(sp[k].1)
    } else if trim(t).len() == 0 {
        with
    } else {
        trim_end(t) + seq![' '] + with
    }
}

/// The first word from `k` on that starts with `@`.
pub open spec fn first_at_word(t: Seq<char>, sp: Seq<(int, int)>, k: int) -> int
    decreases sp.len() - k,
{
    if k < 0 || k >= sp.len() {
        k
    } else if t[sp[k].0] == '@' {
        k
    } else {
        first_at_word(t, sp, k + 1)
    }
}

pub fn replace_date(text: &str, with: &str) -> (r: String)
    ensures
        r@ == replaced_date(text@, with@),
{
    let v = chars_of(text);
    let sp = word_spans(&v);
    let ghost gs = spans(v@);
    let mut k: usize = 0;
    while k < sp.len() && v[sp[k].0] != '@'
        invariant
            k <= sp@.len(),
            crate::strs::spans_view(sp@) == gs,
            crate::strs::good_spans(v@, gs, 0),
            first_at_word(v@, gs, k as int) == first_at_word(v@, gs, 0),
            forall|j: int| 0 <= j < k ==> v@[(#[trigger] gs[j]).0] != '@',
        decreases sp@.len() - k,
    {
        assert(gs[k as int] == (sp@[k as int].0 as int, sp@[k as int].1 as int));
        k += 1;
    }
    if k < sp.len() {
        let (a, b) = sp[k];
        assert(gs[k as int] == (a as int, b as int));
        let head = slice_chars(&v, 0, a);
        let rest = slice_chars(&v, b, v.len());
        let mut out = string_of(&head);
        push_str(&mut out, with);
        crate::strs::push_chars(&mut out, &rest);
        assert(out@ =~= v@.take(a as int) + with@ + v@.skip(b as int));
        return out;
    }
    assert(!(exists|j: int| 0 <= j < gs.len() && v@[gs[j].0] == '@')) by {
        if exists|j: int| 0 <= j < gs.len() && v@[gs[j].0] == '@' {
            let j = choose|j: int| 0 <= j < gs.len() && v@[gs[j].0] == '@';
            assert(v@[(gs[j]).0] != '@');
        }
    }
    let t = crate::strs::trimmed(&v);
    if t.len() == 0 {
        let mut out = String::new();
        push_str(&mut out, with);
        return out;
    }
    let end = crate::strs::trailing_start(&v);
    let head = slice_chars(&v, 0, end);
    let mut out = string_of(&head);
    push_char(&mut out, ' ');
    push_str(&mut out, with);
    assert(out@ =~= trim_end(v@) + seq![' '] + with@);
    out
}

/// `at` falls between two characters of `s`.
pub open spec fn on_boundary(s: Seq<char>, at: int) -> bool {
    exists|k: int| 0 <= k <= s.len() && byte_len(s.take(k)) == at
}

/// The character index the byte index `at` stands at.
pub open spec fn caret(s: Seq<char>, at: int) -> int {
    choose|k: int| 0 <= k <= s.len() && byte_len(s.take(k)) == at
}

pub proof fn lemma_caret(s: Seq<char>, k: int)
    requires
        0 <= k <= s.len(),
    ensures
        on_boundary(s, byte_len(s.take(k)) as int),
        caret(s, byte_len(s.take(k)) as int) == k,
{
    let at = byte_len(s.take(k)) as int;
    assert(0 <= k <= s.len() && byte_len(s.take(k)) == at);
    let j = caret(s, at);
    if j < k {
        crate::strs::lemma_byte_len_grows(s, j, k);
    } else if k < j {
        crate::strs::lemma_byte_len_grows(s, k, j);
    }
}

/// Where the caret is, as a character index, found by walking the offsets.
pub(crate) fn caret_index(v: &Vec<char>, at: usize) -> (k: usize)
    requires
        on_boundary(v@, at as int),
    ensures
        k <= v@.len(),
        byte_len(v@.take(k as int)) == at,
        k == caret(v@, at as int),
{
    let ghost want = caret(v@, at as int);
    proof {
        lemma_caret(v@, want);
    }
    let n = byte_count(string_of(v).as_str());
    let offs = byte_offsets(v);
    let mut k: usize = 0;
    while k < v.len() && offs[k] != at
        invariant
            k <= v@.len(),
            offs@.len() == v@.len() + 1,
            forall|j: int| 0 <= j <= v@.len() ==> #[trigger] offs@[j] == byte_len(v@.take(j)),
            0 <= want <= v@.len(),
            byte_len(v@.take(want)) == at,
            k <= want,
        decreases v@.len() - k,
    {
        assert(k != want) by {
            if k as int == want {
                assert(offs@[k as int] == at);
            }
        }
        k += 1;
    }
    proof {
        if offs@[k as int] != at {
            assert(k == v@.len());
            assert(k <= want);
        }
        lemma_caret(v@, k as int);
    }
    k
}

/// The one-line input box: a line being typed, and what it is for.
#[derive(Debug, Clone, PartialEq, Eq)]
pub struct Input {
    pub text: String,
    /// Where the next character goes, as a byte index into `text`; always
    /// between two characters.
    pub at: usize,
    pub purpose: Purpose,
    /// The date field, while it is open.
    pub field: Option<DateField>,
    /// The date the box opened with, for as long as it is still in the line
    /// and nobody has typed another.
    pub opened_with: Option<String>,
}


/// What a typed character does to the box: with the date field open, a
/// digit goes into the field; otherwise the character goes in at the caret,
/// after the opening date is taken back out if it is still owed.
pub open spec fn typed_in(o: Input, n: Input, c: char) -> bool {
    &&& n.purpose == o.purpose
    &&& match o.field {
        Some(f) => {
            &&& n.text == o.text
            &&& n.at == o.at
            &&& n.field == match digit_value(c) {
                Some(d) => Some(digit_typed(f, d)),
                None => Some(f),
            }
            &&& n.opened_with == o.opened_with
        },
        None => {
            let (t, at) = o.before_insert(c);
            &&& n.field is None
            &&& if c == '@' {
                n.opened_with is None
            } else {
                n.opened_with == o.opened_with
            }
            &&& n.text@ == inserted(t, caret(t, at), c)
            &&& n.at == at + width(c)
        },
    }
}

/// `⌫`: the character before the caret goes, if there is one.
pub open spec fn backed(o: Input, n: Input) -> bool {
    let k = o.caret_at();
    let t = o.text@;
    &&& n.opened_with == o.opened_with
    &&& n.purpose == o.purpose
    &&& n.field == o.field
    &&& if k > 0 {
        &&& n.text@ == removed(t, k - 1)
        &&& n.at == byte_len(t.take(k - 1))
    } else {
        n.text == o.text && n.at == o.at
    }
}

/// `del`: the character after the caret goes, if there is one.
pub open spec fn deleted_after(o: Input, n: Input) -> bool {
    let k = o.caret_at();
    let t = o.text@;
    &&& n.opened_with == o.opened_with
    &&& n.purpose == o.purpose
    &&& n.field == o.field
    &&& n.at == o.at
    &&& if k < t.len() {
        n.text@ == removed(t, k)
    } else {
        n.text == o.text
    }
}

/// `←`: the field's cursor a part back, or the caret a character back.
pub open spec fn went_left(o: Input, n: Input) -> bool {
    &&& n.opened_with == o.opened_with
    &&& n.purpose == o.purpose
    &&& n.text == o.text
    &&& match o.field {
        Some(f) => n.field == Some(moved(f, false)) && n.at == o.at,
        None => n.field is None && n.at == if o.caret_at() > 0 {
            byte_len(o.text@.take(o.caret_at() - 1)) as usize
        } else {
            o.at
        },
    }
}

/// `→`: the field's cursor a part on, or the caret a character on.
pub open spec fn went_right(o: Input, n: Input) -> bool {
    &&& n.opened_with == o.opened_with
    &&& n.purpose == o.purpose
    &&& n.text == o.text
    &&& match o.field {
        Some(f) => n.field == Some(moved(f, true)) && n.at == o.at,
        None => n.field is None && n.at == if o.caret_at() < o.text@.len() {
            byte_len(o.text@.take(o.caret_at() + 1)) as usize
        } else {
            o.at
        },
    }
}

/// `↑` `↓`: the part under the field's cursor stepped; nothing without the
/// field.
pub open spec fn field_stepped(o: Input, n: Input, by: int) -> bool {
    &&& n.opened_with == o.opened_with
    &&& n.purpose == o.purpose
    &&& n.text == o.text
    &&& n.at == o.at
    &&& n.field == match o.field {
        Some(f) => Some(stepped(f, by)),
        None => None,
    }
}

pub open spec fn went_home(o: Input, n: Input) -> bool {
    n.at == 0 && n.text == o.text && n.purpose == o.purpose && n.field == o.field
        && n.opened_with == o.opened_with
}

pub open spec fn went_end(o: Input, n: Input) -> bool {
    n.at == byte_len(o.text@) && n.text == o.text && n.purpose == o.purpose && n.field == o.field
        && n.opened_with == o.opened_with
}

/// The field put away and the line left as it was.
pub open spec fn field_closed(o: Input, n: Input) -> bool {
    n.field is None && n.text == o.text && n.at == o.at && n.purpose == o.purpose
        && n.opened_with == o.opened_with
}

/// The field's date written into the line: for `p` as the whole line, and
/// otherwise in place of the line's date or on its end.
pub open spec fn field_applied(o: Input, n: Input) -> bool {
    &&& n.opened_with == o.opened_with
    &&& n.field is None
    &&& n.purpose == o.purpose
    &&& match o.field {
        Some(f) => {
            let d = f.date_spec();
            &&& n.text@ == match o.purpose {
                Purpose::Postpone(_) => iso_text(d),
                _ => replaced_date(o.text@, seq!['@'] + iso_text(d)),
            }
            &&& n.at == byte_len(n.text@)
        },
        None => n.text == o.text && n.at == o.at,
    }
}

/// The box `a` opens: today's date behind the caret, owed back out of the
/// line once a date is typed.
pub open spec fn opened_adding(r: Input, today: Date) -> bool {
    &&& r.text@ == seq![' ', '@'] + iso_text(today)
    &&& r.at == 0
    &&& r.purpose == Purpose::Add
    &&& r.field is None
    &&& r.opening() == Some(seq![' ', '@'] + iso_text(today))
}

/// The box an edit opens: the task's text as it stands in the file.
pub open spec fn opened_editing(r: Input, task: Task) -> bool {
    &&& r.text@ == task.body_spec()
    &&& r.at == byte_len(r.text@)
    &&& r.purpose == Purpose::Edit(task.raw)
    &&& r.field is None
    &&& r.opening() is None
}

/// The box `p` opens: empty.
pub open spec fn opened_postponing(r: Input, task: Task) -> bool {
    &&& r.text@ == Seq::<char>::empty()
    &&& r.at == 0
    &&& r.purpose == Purpose::Postpone(task.raw)
    &&& r.field is None
    &&& r.opening() is None
}

/// The box `y` opens: the task re-opened, as a new one.
pub open spec fn opened_duplicating(r: Input, task: Task, today: Date) -> bool {
    &&& r.text@ == trim_start(crate::model::restated(task, State::Open, today).skip(task.checkbox as int + 2))
    &&& r.at == byte_len(r.text@)
    &&& r.purpose == Purpose::Copy
    &&& r.field is None
    &&& r.opening() is None
}

impl Input {
    pub open spec fn wf(self) -> bool {
        &&& on_boundary(self.text@, self.at as int)
        &&& (self.field matches Some(f) ==> field_wf(f))
    }

    /// The date the box opened with, while it is still owed.
    pub open spec fn opening(self) -> Option<Seq<char>> {
        match self.opened_with {
            Some(o) => Some(o@),
            None => None,
        }
    }

    pub open spec fn caret_at(self) -> int {
        caret(self.text@, self.at as int)
    }

    /// The only way to build one: the caret starts at the end of `text`.
    pub fn new(text: String, purpose: Purpose) -> (r: Input)
        ensures
            r.wf(),
            r.text == text,
            r.at == byte_len(text@),
            r.purpose == purpose,
            r.field is None,
            r.opening() is None,
    {
        let at = byte_count(text.as_str());
        proof {
            assert(text@.take(text@.len() as int) =~= text@);
            lemma_caret(text@, text@.len() as int);
        }
        Input { at, text, purpose, field: None, opened_with: None }
    }

    /// Pre-filled with today behind the caret: the date is the field the
    /// tool guessed, the title the one the user came to type.
    pub fn adding(today: Date) -> (r: Input)
        ensures
            r.wf(),
            opened_adding(r, today),
    {
        let mut opening = String::new();
        push_char(&mut opening, ' ');
        push_char(&mut opening, '@');
        today.push_iso(&mut opening);
        assert(opening@ =~= seq![' ', '@'] + iso_text(today));
        let copy = opening.clone();
        proof {
            assert(opening@.take(0) =~= Seq::<char>::empty());
            lemma_caret(opening@, 0);
        }
        Input { at: 0, text: opening, purpose: Purpose::Add, field: None, opened_with: Some(copy) }
    }

    /// Pre-filled with the task's text as it stands in the file.
    pub fn editing(task: &Task) -> (r: Input)
        requires
            task.wf(),
        ensures
            r.wf(),
            opened_editing(r, *task),
    {
        let mut text = String::new();
        push_str(&mut text, task.body());
        Input::new(text, Purpose::Edit(task.raw.clone()))
    }

    /// Empty: the answer is short, and a guess would have to be deleted.
    pub fn postponing(task: &Task) -> (r: Input)
        ensures
            r.wf(),
            opened_postponing(r, *task),
    {
        Input::new(String::new(), Purpose::Postpone(task.raw.clone()))
    }

    /// Pre-filled the way an edit is, but as a new task, and re-opened first
    /// so the completion stamp does not come along into the title.
    pub fn duplicating(task: &Task, today: Date) -> (r: Input)
        requires
            task.wf(),
            today.wf(),
            task.raw@.len() + 32 < usize::MAX,
        ensures
            r.wf(),
            opened_duplicating(r, *task, today),
    {
        let mut copy = task.copied();
        copy.set_state(State::Open, today);
        let mut text = String::new();
        push_str(&mut text, copy.body());
        Input::new(text, Purpose::Copy)
    }
}

/// Where `o` first occurs in `t` from `i` on, as a character index.
pub open spec fn first_from(t: Seq<char>, o: Seq<char>, i: int) -> Option<int>
    decreases t.len() + 1 - i,
{
    if i < 0 || i + o.len() > t.len() {
        None
    } else if t.subrange(i, i + o.len()) == o {
        Some(i)
    } else {
        first_from(t, o, i + 1)
    }
}

/// The line and the caret with the opening date taken back out, if it is
/// still in the line.
pub open spec fn without_opening(t: Seq<char>, at: int, o: Seq<char>) -> (Seq<char>, int) {
    match first_from(t, o, 0) {
        None => (t, at),
        Some(i) => {
            let from = byte_len(t.take(i)) as int;
            let to = from + byte_len(o);
            (t.take(i) + t.skip(i + o.len()), if at >= to {
                at - byte_len(o)
            } else if at <= from {
                at
            } else {
                from
            })
        },
    }
}

proof fn lemma_cut_bytes(t: Seq<char>, i: int, j: int, m: int)
    requires
        0 <= i <= j <= t.len(),
        0 <= m <= t.len() - (j - i),
    ensures
        m <= i ==> byte_len((t.take(i) + t.skip(j)).take(m)) == byte_len(t.take(m)),
        m >= i ==> byte_len((t.take(i) + t.skip(j)).take(m)) == byte_len(t.take(m + j - i))
            - byte_len(t.subrange(i, j)),
{
    let u = t.take(i) + t.skip(j);
    if m <= i {
        assert(u.take(m) =~= t.take(m));
    } else {
        assert(u.take(m) =~= t.take(i) + t.subrange(j, m + j - i));
        crate::strs::lemma_byte_len_concat(t.take(i), t.subrange(j, m + j - i));
        assert(t.take(m + j - i) =~= t.take(i) + t.subrange(i, j) + t.subrange(j, m + j - i));
        crate::strs::lemma_byte_len_concat(t.take(i), t.subrange(i, j));
        crate::strs::lemma_byte_len_concat(t.take(i) + t.subrange(i, j), t.subrange(j, m + j - i));
    }
    if m == i {
        assert(u.take(m) =~= t.take(i));
        assert(t.take(m + j - i) =~= t.take(i) + t.subrange(i, j));
        crate::strs::lemma_byte_len_concat(t.take(i), t.subrange(i, j));
    }
}

proof fn lemma_first_from(t: Seq<char>, o: Seq<char>, i: int)
    ensures
        first_from(t, o, i) matches Some(x) ==> 0 <= x && x + o.len() <= t.len() && t.subrange(
            x,
            x + o.len(),
        ) == o,
    decreases t.len() + 1 - i,
{
    if !(i < 0 || i + o.len() > t.len()) && t.subrange(i, i + o.len()) != o {
        lemma_first_from(t, o, i + 1);
    }
}

fn first_match(t: &Vec<char>, o: &Vec<char>) -> (r: Option<usize>)
    ensures
        match first_from(t@, o@, 0) {
            Some(i) => r == Some(i as usize),
            None => r is None,
        },
{
    if o.len() > t.len() {
        return None;
    }
    let n = t.len();
    let last = n - o.len();
    let mut i: usize = 0;
    while i <= last
        invariant
            n == t@.len(),
            o@.len() <= t@.len(),
            last + o@.len() == t@.len(),
            i <= last + 1,
            first_from(t@, o@, i as int) == first_from(t@, o@, 0),
        decreases last + 1 - i,
    {
        let piece = slice_chars(t, i, i + o.len());
        if same_chars(&piece, o) {
            return Some(i);
        }
        if i == last {
            assert(first_from(t@, o@, i + 1) is None);
            return None;
        }
        i += 1;
    }
    None
}

impl Input {
    /// Takes the date the box opened with back out, because the user is
    /// typing one. Once, and only while the line still holds it.
    fn drop_the_opening_date(&mut self)
        requires
            old(self).wf(),
        ensures
            final(self).wf(),
            final(self).opening() is None,
            final(self).purpose == old(self).purpose,
            final(self).field == old(self).field,
            match old(self).opening() {
                Some(o) => (final(self).text@, final(self).at as int) == without_opening(
                    old(self).text@,
                    old(self).at as int,
                    o,
                ),
                None => final(self).text == old(self).text && final(self).at == old(self).at,
            },
    {
        let opening = match self.opened_with.take() {
            Some(o) => o,
            None => {
                return;
            },
        };
        let t = chars_of(self.text.as_str());
        let total = byte_count(self.text.as_str());
        let o = chars_of(opening.as_str());
        let from_i = match first_match(&t, &o) {
            Some(i) => i,
            None => {
                return;
            },
        };
        let ghost k = caret(t@, self.at as int);
        proof {
            lemma_caret(t@, k);
            lemma_first_from(t@, o@, 0);
        }
        let ol = byte_count(opening.as_str());
        let head = slice_chars(&t, 0, from_i);
        let from = byte_count(string_of(&head).as_str());
        let ghost j = from_i + o@.len();
        proof {
            crate::strs::lemma_byte_len_concat(t@.take(from_i as int), o@);
            assert(t@.take(j) =~= t@.take(from_i as int) + t@.subrange(from_i as int, j));
            assert(t@.subrange(from_i as int, j) == o@);
            crate::strs::lemma_byte_len_grows(t@, j, t@.len() as int);
            assert(t@.take(t@.len() as int) =~= t@);
        }
        let to = from + ol;
        let tn = t.len();
        assert(from_i + o@.len() <= tn);
        let rest = slice_chars(&t, from_i + o.len(), tn);
        let mut text = string_of(&head);
        crate::strs::push_chars(&mut text, &rest);
        let ghost u = t@.take(from_i as int) + t@.skip(j);
        assert(text@ =~= u);
        let at = self.at;
        let new_at = if at >= to {
            at - ol
        } else if at <= from {
            at
        } else {
            from
        };
        proof {
            if at >= to {
                if k < j {
                    crate::strs::lemma_byte_len_grows(t@, k + 1, j);
                    crate::strs::lemma_byte_len_grows(t@, k, k + 1);
                }
                lemma_cut_bytes(t@, from_i as int, j, k - o@.len());
                lemma_caret(u, k - o@.len());
            } else if at <= from {
                if k > from_i {
                    crate::strs::lemma_byte_len_grows(t@, from_i as int, k);
                }
                lemma_cut_bytes(t@, from_i as int, j, k);
                lemma_caret(u, k);
            } else {
                lemma_cut_bytes(t@, from_i as int, j, from_i as int);
                lemma_caret(u, from_i as int);
            }
        }
        self.text = text;
        self.at = new_at;
    }
}

/// The digit a character is, if it is one.
pub open spec fn digit_value(c: char) -> Option<int> {
    if '0' <= c <= '9' {
        Some(c as int - '0' as int)
    } else {
        None
    }
}

/// `t` with `c` put in at character index `k`.
pub open spec fn inserted(t: Seq<char>, k: int, c: char) -> Seq<char> {
    t.take(k) + seq![c] + t.skip(k)
}

/// `t` without the character at index `k`.
pub open spec fn removed(t: Seq<char>, k: int) -> Seq<char> {
    t.take(k) + t.skip(k + 1)
}

/// `tab` in the box: with the date field open it is closed the way `⏎`
/// closes it; otherwise it opens on the date the line means, or today.
pub open spec fn toggled(o: Input, n: Input, today: Date) -> bool {
    &&& (n.purpose == o.purpose)
    &&& (n.opened_with == o.opened_with)
    &&& (match o.field {
        Some(f) => {
            let d = f.date_spec();
            &&& n.field is None
            &&& n.text@ == match o.purpose {
                Purpose::Postpone(_) => iso_text(d),
                _ => replaced_date(o.text@, seq!['@'] + iso_text(d)),
            }
            &&& n.at == byte_len(n.text@)
        },
        None => {
            let meant = match o.purpose {
                Purpose::Postpone(_) => crate::capture::later_days(o.text@, today),
                _ => match crate::capture::captured(o.text@, today).due {
                    Some((k, _)) => Some(k),
                    None => None,
                },
            };
            &&& n.text == o.text
            &&& n.at == o.at
            &&& n.field matches Some(g)
            &&& g.part == DatePart::Day
            &&& g.digits == 0
            &&& match meant {
                Some(k) => (Date { year: g.year, month: g.month, day: g.day }).wf() && (Date {
                    year: g.year,
                    month: g.month,
                    day: g.day,
                }).number() == k,
                None => g.year == today.year && g.month == today.month && g.day == today.day,
            }
        },
    })
}

impl Input {
    /// Where `insert` would leave the line and the caret with the field
    /// closed: for `@`, first without the date the box opened with.
    pub open spec fn before_insert(self, c: char) -> (Seq<char>, int) {
        if c == '@' && self.opening() is Some {
            without_opening(self.text@, self.at as int, self.opening()->0)
        } else {
            (self.text@, self.at as int)
        }
    }

    /// A character typed at the caret. With the date field open only digits
    /// mean anything, and they go to the field.
    pub fn insert(&mut self, c: char)
        requires
            old(self).wf(),
        ensures
            final(self).wf(),
            typed_in(*old(self), *final(self), c),
    {
        match self.field {
            Some(f) => {
                if '0' <= c && c <= '9' {
                    let mut g = f;
                    g.digit(c as u32 - '0' as u32);
                    self.field = Some(g);
                }
                return;
            },
            None => {},
        }
        if c == '@' {
            self.drop_the_opening_date();
        }
        let t = chars_of(self.text.as_str());
        let total = byte_count(self.text.as_str());
        let k = caret_index(&t, self.at);
        let head = slice_chars(&t, 0, k);
        let rest = slice_chars(&t, k, t.len());
        let mut text = string_of(&head);
        push_char(&mut text, c);
        let new_at = byte_count(text.as_str());
        crate::strs::push_chars(&mut text, &rest);
        assert(text@ =~= inserted(t@, k as int, c));
        proof {
            crate::strs::lemma_byte_len_grows(t@, k as int, t@.len() as int);
            assert(t@.take(t@.len() as int) =~= t@);
            assert(inserted(t@, k as int, c).take(k + 1) =~= t@.take(k as int).push(c));
            crate::strs::lemma_byte_len_push(t@.take(k as int), c);
            lemma_caret(inserted(t@, k as int, c), k + 1);
        }
        self.text = text;
        self.at = new_at;
    }

    /// Backspace: the character before the caret.
    pub fn back(&mut self)
        requires
            old(self).wf(),
        ensures
            final(self).wf(),
            backed(*old(self), *final(self)),
    {
        let t = chars_of(self.text.as_str());
        let k = caret_index(&t, self.at);
        if k == 0 {
            return;
        }
        let head = slice_chars(&t, 0, k - 1);
        let rest = slice_chars(&t, k, t.len());
        let mut text = string_of(&head);
        let at = byte_count(text.as_str());
        crate::strs::push_chars(&mut text, &rest);
        assert(text@ =~= removed(t@, k - 1));
        proof {
            assert(removed(t@, k - 1).take(k - 1) =~= t@.take(k - 1));
            lemma_caret(removed(t@, k - 1), k - 1);
        }
        self.text = text;
        self.at = at;
    }

    /// Delete: the character under the caret; the caret does not move.
    pub fn delete(&mut self)
        requires
            old(self).wf(),
        ensures
            final(self).wf(),
            deleted_after(*old(self), *final(self)),
    {
        let t = chars_of(self.text.as_str());
        let k = caret_index(&t, self.at);
        if k >= t.len() {
            return;
        }
        let head = slice_chars(&t, 0, k);
        let rest = slice_chars(&t, k + 1, t.len());
        let mut text = string_of(&head);
        crate::strs::push_chars(&mut text, &rest);
        assert(text@ =~= removed(t@, k as int));
        proof {
            assert(removed(t@, k as int).take(k as int) =~= t@.take(k as int));
            lemma_caret(removed(t@, k as int), k as int);
        }
        self.text = text;
    }

    /// Left: one character back, or the field's cursor one part back.
    pub fn left(&mut self)
        requires
            old(self).wf(),
        ensures
            final(self).wf(),
            went_left(*old(self), *final(self)),
    {
        match self.field {
            Some(f) => {
                let mut g = f;
                g.move_to(false);
                self.field = Some(g);
                return;
            },
            None => {},
        }
        let t = chars_of(self.text.as_str());
        let k = caret_index(&t, self.at);
        if k > 0 {
            let head = slice_chars(&t, 0, k - 1);
            let at = byte_count(string_of(&head).as_str());
            proof {
                lemma_caret(t@, k - 1);
            }
            self.at = at;
        }
    }

    /// Right: one character on, or the field's cursor one part on.
    pub fn right(&mut self)
        requires
            old(self).wf(),
        ensures
            final(self).wf(),
            went_right(*old(self), *final(self)),
    {
        match self.field {
            Some(f) => {
                let mut g = f;
                g.move_to(true);
                self.field = Some(g);
                return;
            },
            None => {},
        }
        let t = chars_of(self.text.as_str());
        let k = caret_index(&t, self.at);
        if k < t.len() {
            let head = slice_chars(&t, 0, k + 1);
            let at = byte_count(string_of(&head).as_str());
            proof {
                lemma_caret(t@, k + 1);
            }
            self.at = at;
        }
    }

    /// Up and down, which mean nothing until the field is open.
    pub fn step(&mut self, by: i32)
        requires
            old(self).wf(),
            old(self).field matches Some(f) ==> step_fits(f, by as int),
        ensures
            final(self).wf(),
            field_stepped(*old(self), *final(self), by as int),
    {
        match self.field {
            Some(f) => {
                let mut g = f;
                g.step(by);
                self.field = Some(g);
            },
            None => {},
        }
    }

    pub fn home(&mut self)
        requires
            old(self).wf(),
        ensures
            final(self).wf(),
            went_home(*old(self), *final(self)),
    {
        proof {
            assert(self.text@.take(0) =~= Seq::<char>::empty());
            lemma_caret(self.text@, 0);
        }
        self.at = 0;
    }

    pub fn end(&mut self)
        requires
            old(self).wf(),
        ensures
            final(self).wf(),
            went_end(*old(self), *final(self)),
    {
        let at = byte_count(self.text.as_str());
        proof {
            assert(self.text@.take(self.text@.len() as int) =~= self.text@);
            lemma_caret(self.text@, self.text@.len() as int);
        }
        self.at = at;
    }

    /// Escape with the field open: the field goes and the line is untouched.
    /// `true` when that is what happened.
    pub fn close_field(&mut self) -> (r: bool)
        requires
            old(self).wf(),
        ensures
            final(self).wf(),
            r == old(self).field is Some,
            field_closed(*old(self), *final(self)),
    {
        let r = self.field.is_some();
        self.field = None;
        r
    }

    /// Enter with the field open: the date goes into the line, in place of
    /// its `@` word, and the keyboard goes back to the text.
    pub fn apply_field(&mut self) -> (r: bool)
        requires
            old(self).wf(),
        ensures
            final(self).wf(),
            r == old(self).field is Some,
            field_applied(*old(self), *final(self)),
    {
        let f = match self.field {
            Some(f) => f,
            None => {
                return false;
            },
        };
        self.field = None;
        let date = f.date();
        let text = match &self.purpose {
            Purpose::Postpone(_) => date.iso(),
            _ => {
                let mut with = String::new();
                push_char(&mut with, '@');
                date.push_iso(&mut with);
                assert(with@ =~= seq!['@'] + iso_text(date));
                replace_date(self.text.as_str(), with.as_str())
            },
        };
        let at = byte_count(text.as_str());
        proof {
            assert(text@.take(text@.len() as int) =~= text@);
            lemma_caret(text@, text@.len() as int);
        }
        self.text = text;
        self.at = at;
        true
    }

    /// Tab: opens the date field on the date the line already means, or
    /// today; with it open, closes it the way enter does.
    pub fn toggle_field(&mut self, today: Date)
        requires
            old(self).wf(),
            today.wf(),
        ensures
            final(self).wf(),
            toggled(*old(self), *final(self), today),
    {
        if self.field.is_some() {
            self.apply_field();
            return;
        }
        let from = match &self.purpose {
            Purpose::Postpone(_) => crate::capture::later(self.text.as_str(), today),
            _ => {
                let t = crate::capture::capture(self.text.as_str(), today);
                match t.due {
                    Some(d) => Some(d.date),
                    None => None,
                }
            },
        };
        let start = match from {
            Some(d) => d,
            None => today,
        };
        self.field = Some(DateField::new(start));
    }
}

impl DateField {
    /// What `date` hands back.
    pub open spec fn date_spec(self) -> Date {
        Date { year: settled(self).year, month: settled(self).month, day: settled(self).day }
    }
}

} // verus!
