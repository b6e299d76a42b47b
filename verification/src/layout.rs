//! How a row of the list is laid out: which pieces of text, in which ink,
//! padded to which columns. The terminal code turns each piece into a
//! styled span and draws it; every width here is the width it measures.

use vstd::prelude::*;

use crate::agenda::Counts;
use crate::date::Date;
use crate::live::Notice;
use crate::model::{views, Priority, State, Task};
use crate::screen::Row;
use crate::strs::{push_char, push_str};
use crate::text::{clean, plain};
use crate::theme::{Colour, Theme};
use crate::ui::{
    columns, display_width, filled, filled_cells, heading, heading_text, hints, hints_text, mark_text,
    push_repeated, repeated, shorten, shorten_text, when_text, Glyphs, Size, BAR,
};
use crate::ui::{band_for, band_rows, size_for, Band,
};
use crate::strs::{chars_of, decimal, digits, good_spans, slice_chars, string_of};
use crate::capture::{captured, is_capture, later_days, part_spans, parts_chars, parts_of, Part};
use crate::model::Due;
use crate::strs::{padded, trim};
use crate::ui::{cell_text, year_cell, DateField, DatePart};
use crate::ui::{caret_index, char_columns, lead, lead_take, lead_text, tail, tail_take, tail_text, Input, Purpose};

verus! {

/// The gap in front of an entry that has no column to sit in.
pub const GAP: usize = 2;

/// What a column costs in front of its own text: a space, the rule, a space.
pub const RULED: usize = 3;

/// The row width, in columns, from which the date, priority and tags are
/// laid out as aligned columns; below it they are pushed to the right edge.
pub const COLUMNS_AT: usize = 71;

/// The air between a group box's left side and the mark.
pub const INSET: usize = 1;

/// How a piece is painted: a colour of the theme or the terminal's own, and
/// whether it is heavy.
#[derive(Debug, Clone, Copy, PartialEq, Eq, Structural)]
pub struct Ink {
    pub fg: Option<Colour>,
    pub bold: bool,
}

/// One run of text in one ink.
#[derive(Debug, PartialEq, Eq)]
pub struct Piece {
    pub text: String,
    pub ink: Ink,
}

impl View for Piece {
    type V = (Seq<char>, Ink);

    open spec fn view(&self) -> (Seq<char>, Ink) {
        (self.text@, self.ink)
    }
}

pub open spec fn pieces(v: Seq<Piece>) -> Seq<(Seq<char>, Ink)> {
    v.map_values(|p: Piece| p@)
}

/// How wide a run of pieces is drawn: the widths of their texts, added.
pub open spec fn widths(ps: Seq<(Seq<char>, Ink)>) -> nat
    decreases ps.len(),
{
    if ps.len() == 0 {
        0
    } else {
        widths(ps.drop_last()) + display_width(ps.last().0)
    }
}

/// `a - b`, or nothing when `b` is the larger.
pub open spec fn sub0(a: int, b: int) -> nat {
    if a > b {
        (a - b) as nat
    } else {
        0
    }
}

pub open spec fn plain_ink() -> Ink {
    Ink { fg: None, bold: false }
}

pub open spec fn ink_of(c: Colour) -> Ink {
    Ink { fg: Some(c), bold: false }
}

pub open spec fn bold_of(c: Colour) -> Ink {
    Ink { fg: Some(c), bold: true }
}

pub open spec fn spaces(n: nat) -> Seq<char> {
    repeated(seq![' '], n)
}

pub open spec fn divider_text(g: Glyphs) -> Seq<char> {
    if g == Glyphs::Unicode {
        "\u{2502}"@
    } else {
        "|"@
    }
}

/// A space, the column rule, a space.
pub open spec fn ruled_text(g: Glyphs) -> Seq<char> {
    seq![' '] + divider_text(g) + seq![' ']
}

pub open spec fn due_today(t: Task, today: Date) -> bool {
    t.due matches Some(d) && d.date == today
}

/// A row's colour: green once done, red when cancelled or late, the
/// `today` colour when due today, and the plain foreground otherwise.
pub open spec fn task_colour_of(t: Task, today: Date, th: Theme) -> Colour {
    match t.state {
        State::Done => th.done,
        State::Cancelled => th.overdue,
        State::Open => if t.overdue(today) {
            th.overdue
        } else if due_today(t, today) {
            th.today
        } else {
            th.foreground
        },
    }
}

/// `!high` heavy in the priority colour, `!med` in it, the rest quiet.
pub open spec fn priority_ink_of(p: Option<Priority>, quiet: Ink, th: Theme) -> Ink {
    match p {
        Some(Priority::High) => bold_of(th.priority),
        Some(Priority::Med) => ink_of(th.priority),
        _ => quiet,
    }
}

pub fn task_colour(task: &Task, today: Date, theme: Theme) -> (r: Colour)
    ensures
        r == task_colour_of(*task, today, theme),
{
    match task.state {
        State::Done => theme.done,
        State::Cancelled => theme.overdue,
        State::Open => {
            if task.is_overdue(today) {
                theme.overdue
            } else if is_due_today(task, today) {
                theme.today
            } else {
                theme.foreground
            }
        },
    }
}

fn is_due_today(task: &Task, today: Date) -> (r: bool)
    ensures
        r == due_today(*task, today),
{
    match task.due {
        Some(d) => d.date == today,
        None => false,
    }
}

pub fn priority_ink(priority: Option<Priority>, quiet: Ink, theme: Theme) -> (r: Ink)
    ensures
        r == priority_ink_of(priority, quiet, theme),
{
    match priority {
        Some(Priority::High) => Ink { fg: Some(theme.priority), bold: true },
        Some(Priority::Med) => Ink { fg: Some(theme.priority), bold: false },
        _ => quiet,
    }
}

/// One entry of the right-hand block. Outside a column it carries its own
/// gap and is left out when empty; inside one it opens with the rule, empty
/// or not, and is padded to the column's width.
pub open spec fn cell(text: Seq<char>, column: nat, ink: Ink, g: Glyphs, th: Theme) -> Seq<
    (Seq<char>, Ink),
> {
    if column == 0 {
        if text.len() == 0 {
            seq![]
        } else {
            seq![(spaces(GAP as nat) + text, ink)]
        }
    } else {
        seq![
            (ruled_text(g), ink_of(th.border)),
            (text, ink),
            (spaces(sub0(column as int, display_width(text) + RULED)), plain_ink()),
        ]
    }
}

/// A tag as the row shows it: the first one right after the column rule,
/// every other one spaced from what is before it.
pub open spec fn tag_text(tag: Seq<char>, first_after_rule: bool) -> Seq<char> {
    if first_after_rule {
        seq!['#'] + clean(tag)
    } else {
        seq![' ', ' ', '#'] + clean(tag)
    }
}

/// The tags from the `k`th on, while they fit whole in `room`: one that
/// does not fit ends the run rather than being cut.
pub open spec fn tag_run(tags: Seq<Seq<char>>, k: int, ruled: bool, room: int, ink: Ink) -> Seq<
    (Seq<char>, Ink),
>
    decreases tags.len() - k,
{
    if k < 0 || k >= tags.len() {
        seq![]
    } else {
        let span = tag_text(tags[k], k == 0 && ruled);
        if room < display_width(span) {
            seq![]
        } else {
            seq![(span, ink)] + tag_run(tags, k + 1, ruled, room - display_width(span), ink)
        }
    }
}

/// Where the columns sit. All zero is the narrow pane: no columns, and the
/// right-hand block pushed to the edge.
#[derive(Debug, Clone, Copy, PartialEq, Eq, Structural)]
pub struct Columns {
    /// Excludes the mark; the date and priority widths include their rule.
    pub title: usize,
    pub date: usize,
    pub prio: usize,
    /// Whether anything on screen is tagged, so the tag column's rule is
    /// drawn on every row.
    pub tags: bool,
}

pub open spec fn mark_cols(t: Task, g: Glyphs, today: Date) -> nat {
    display_width(mark_text(g, t, today)) + 1
}

pub open spec fn priority_text(p: Option<Priority>) -> Seq<char> {
    match p {
        Some(p) => p.text(),
        None => seq![],
    }
}

pub open spec fn pressing(t: Task, today: Date) -> bool {
    t.overdue(today) || (t.is_open() && due_today(t, today))
}

/// What is left of a row for its tags once the columns are paid for; all of
/// it when there are no columns.
pub open spec fn tag_room(t: Task, width: nat, cols: Columns, g: Glyphs, today: Date) -> int {
    if cols.title == 0 {
        usize::MAX as int
    } else {
        sub0(width as int, mark_cols(t, g, today) + cols.title + cols.date + cols.prio) as int
    }
}

pub open spec fn tag_ruled(t: Task, width: nat, cols: Columns, g: Glyphs, today: Date) -> bool {
    cols.date + cols.prio > 0 && cols.tags && tag_room(t, width, cols, g, today) >= display_width(
        ruled_text(g),
    )
}

/// The date, then, on a wide pane, the priority and the tags.
pub open spec fn right_block(
    t: Task,
    width: nat,
    cols: Columns,
    g: Glyphs,
    today: Date,
    size: Size,
    th: Theme,
) -> Seq<(Seq<char>, Ink)> {
    let quiet = ink_of(th.dim);
    let date_ink = if pressing(t, today) {
        ink_of(task_colour_of(t, today, th))
    } else {
        quiet
    };
    let date = cell(when_text(t, today, size), cols.date as nat, date_ink, g, th);
    if size != Size::Wide {
        date
    } else {
        let prio = cell(
            priority_text(t.priority),
            cols.prio as nat,
            priority_ink_of(t.priority, quiet, th),
            g,
            th,
        );
        let room = tag_room(t, width, cols, g, today);
        let ruled = tag_ruled(t, width, cols, g, today);
        let lead = if ruled {
            seq![(ruled_text(g), ink_of(th.border))]
        } else {
            seq![]
        };
        let left = if ruled {
            room - display_width(ruled_text(g))
        } else {
            room
        };
        date + prio + lead + tag_run(views(t.tags@), 0, ruled, left, ink_of(th.tag))
    }
}

/// How wide the title may be, and the column it is padded out to.
pub open spec fn title_room(t: Task, width: nat, cols: Columns, right: Seq<(Seq<char>, Ink)>, g: Glyphs, today: Date) -> (nat, nat) {
    if cols.title > 0 {
        (cols.title as nat, cols.title as nat)
    } else {
        let m = mark_cols(t, g, today);
        let pad = sub0(width as int, m + widths(right) as int);
        let least = if sub0(width as int, m as int) < 12 {
            sub0(width as int, m as int)
        } else {
            12
        };
        (if pad > least { pad } else { least }, pad)
    }
}

/// One task, laid out: its mark and title in the row's colour, padding, and
/// the right-hand block. The drop order as the row narrows is tags, then the
/// priority, then the shorter date, then the title is cut.
pub open spec fn task_pieces(
    t: Task,
    width: nat,
    cols: Columns,
    g: Glyphs,
    today: Date,
    size: Size,
    th: Theme,
) -> Seq<(Seq<char>, Ink)> {
    let colour = ink_of(task_colour_of(t, today, th));
    let right = right_block(t, width, cols, g, today, size, th);
    let room = title_room(t, width, cols, right, g, today);
    let title = shorten_text(clean(t.title@), room.0, g);
    seq![
        (mark_text(g, t, today) + seq![' '], colour),
        (title, colour),
        (spaces(sub0(room.1 as int, display_width(title) as int)), plain_ink()),
    ] + right
}

pub(crate) fn piece(text: String, ink: Ink) -> (r: Piece)
    ensures
        r@ == (text@, ink),
{
    Piece { text, ink }
}

pub(crate) fn push_piece(out: &mut Vec<Piece>, text: String, ink: Ink)
    ensures
        pieces(final(out)@) == pieces(old(out)@).push((text@, ink)),
{
    out.push(piece(text, ink));
    assert(pieces(out@) =~= pieces(old(out)@).push((text@, ink)));
}

pub(crate) fn append_pieces(out: &mut Vec<Piece>, more: Vec<Piece>)
    ensures
        pieces(final(out)@) == pieces(old(out)@) + pieces(more@),
{
    let mut more = more;
    let ghost m = more@;
    out.append(&mut more);
    assert(pieces(out@) =~= pieces(old(out)@) + pieces(m));
}

pub(crate) fn spaces_string(n: usize) -> (r: String)
    ensures
        r@ == spaces(n as nat),
{
    let mut s = String::new();
    push_repeated(&mut s, " ", n);
    proof {
        reveal_strlit(" ");
        assert(" "@ =~= seq![' ']);
        assert(Seq::<char>::empty() + repeated(seq![' '], n as nat) =~= spaces(n as nat));
    }
    s
}

fn ruled_string(g: Glyphs) -> (r: String)
    ensures
        r@ == ruled_text(g),
{
    let mut s = String::new();
    push_char(&mut s, ' ');
    push_str(&mut s, g.divider());
    push_char(&mut s, ' ');
    assert(s@ =~= ruled_text(g));
    s
}

/// `a - b`, floored at nothing, for widths that may be summed past `usize`.
fn less(a: u128, b: u128) -> (r: u128)
    ensures
        r == sub0(a as int, b as int),
{
    if a > b {
        a - b
    } else {
        0
    }
}

fn push_cell(out: &mut Vec<Piece>, text: String, column: usize, ink: Ink, g: Glyphs, th: Theme)
    ensures
        pieces(final(out)@) == pieces(old(out)@) + cell(text@, column as nat, ink, g, th),
{
    if column == 0 {
        if text.as_str().unicode_len() > 0 {
            let mut s = spaces_string(GAP);
            push_str(&mut s, text.as_str());
            push_piece(out, s, ink);
            assert(pieces(out@) =~= pieces(old(out)@) + cell(text@, column as nat, ink, g, th));
        } else {
            assert(pieces(out@) =~= pieces(old(out)@) + cell(text@, column as nat, ink, g, th));
        }
        return ;
    }
    push_piece(out, ruled_string(g), Ink { fg: Some(th.border), bold: false });
    let w = columns(text.as_str()) as u128 + RULED as u128;
    let pad = less(column as u128, w) as usize;
    push_piece(out, text, ink);
    push_piece(out, spaces_string(pad), Ink { fg: None, bold: false });
    assert(pieces(out@) =~= pieces(old(out)@) + cell(text@, column as nat, ink, g, th));
}

/// The tags that fit whole in `room`, from the first on.
fn push_tags(out: &mut Vec<Piece>, task: &Task, ruled: bool, start: u128, ink: Ink)
    requires
        start <= usize::MAX,
    ensures
        pieces(final(out)@) == pieces(old(out)@) + tag_run(views(task.tags@), 0, ruled, start as int, ink),
{
    let ghost tags = views(task.tags@);
    let mut room = start;
    let mut k: usize = 0;
    while k < task.tags.len()
        invariant
            k <= task.tags@.len(),
            tags == views(task.tags@),
            room <= usize::MAX,
            pieces(old(out)@) + tag_run(tags, 0, ruled, start as int, ink) == pieces(out@) + tag_run(
                tags,
                k as int,
                ruled,
                room as int,
                ink,
            ),
        decreases task.tags@.len() - k,
    {
        let mut span = String::new();
        if !(k == 0 && ruled) {
            push_str(&mut span, "  ");
        }
        push_char(&mut span, '#');
        let name = plain(task.tags[k].as_str());
        push_str(&mut span, name.as_str());
        proof {
            reveal_strlit("  ");
            assert(span@ =~= tag_text(tags[k as int], k == 0 && ruled));
        }
        let w = columns(span.as_str()) as u128;
        if room < w {
            assert(tag_run(tags, k as int, ruled, room as int, ink) =~= seq![]);
            assert(pieces(out@) + seq![] =~= pieces(out@));
            return ;
        }
        room = room - w;
        let ghost before = pieces(out@);
        push_piece(out, span, ink);
        assert(before + tag_run(tags, k as int, ruled, (room + w) as int, ink) =~= pieces(out@)
            + tag_run(tags, k + 1, ruled, room as int, ink));
        k += 1;
    }
    assert(tag_run(tags, k as int, ruled, room as int, ink) =~= seq![]);
    assert(pieces(out@) + seq![] =~= pieces(out@));
}

/// How wide a run of pieces is drawn, or `usize::MAX` once it is at least
/// that wide.
pub(crate) fn width_of(ps: &Vec<Piece>) -> (r: usize)
    ensures
        r == (if widths(pieces(ps@)) > usize::MAX {
            usize::MAX as nat
        } else {
            widths(pieces(ps@))
        }),
{
    let mut total: usize = 0;
    let mut i: usize = 0;
    while i < ps.len()
        invariant
            i <= ps@.len(),
            total == (if widths(pieces(ps@.take(i as int))) > usize::MAX {
                usize::MAX as nat
            } else {
                widths(pieces(ps@.take(i as int)))
            }),
        decreases ps@.len() - i,
    {
        assert(pieces(ps@.take(i + 1)).drop_last() =~= pieces(ps@.take(i as int)));
        let w = columns(ps[i].text.as_str());
        total = total.saturating_add(w);
        i += 1;
    }
    assert(ps@.take(ps@.len() as int) =~= ps@);
    total
}

/// The date, then, on a wide pane, the priority and the tags that fit.
fn right_pieces(
    task: &Task,
    width: usize,
    cols: Columns,
    glyphs: Glyphs,
    today: Date,
    size: Size,
    theme: Theme,
) -> (r: Vec<Piece>)
    requires
        task.wf(),
        today.wf(),
    ensures
        pieces(r@) == right_block(*task, width as nat, cols, glyphs, today, size, theme),
{
    let colour = task_colour(task, today, theme);
    let mark = glyphs.mark(task, today);
    let mark_w: u128 = columns(mark) as u128 + 1;
    let quiet = Ink { fg: Some(theme.dim), bold: false };
    let date_ink = if task.is_overdue(today) || (task.open() && is_due_today(task, today)) {
        Ink { fg: Some(colour), bold: false }
    } else {
        quiet
    };
    let mut right: Vec<Piece> = Vec::new();
    push_cell(&mut right, crate::ui::when(task, today, size), cols.date, date_ink, glyphs, theme);
    if size == Size::Wide {
        let mut prio = String::new();
        match task.priority {
            Some(p) => push_str(&mut prio, p.as_str()),
            None => {},
        }
        assert(prio@ == priority_text(task.priority));
        push_cell(&mut right, prio, cols.prio, priority_ink(task.priority, quiet, theme), glyphs, theme);
        let room: u128 = if cols.title == 0 {
            usize::MAX as u128
        } else {
            less(width as u128, mark_w + cols.title as u128 + cols.date as u128 + cols.prio as u128)
        };
        let lead = ruled_string(glyphs);
        let lead_w = columns(lead.as_str()) as u128;
        let ruled = (cols.date > 0 || cols.prio > 0) && cols.tags && room >= lead_w;
        let mut left = room;
        if ruled {
            left = room - lead_w;
            push_piece(&mut right, lead, Ink { fg: Some(theme.border), bold: false });
        }
        push_tags(&mut right, task, ruled, left, Ink { fg: Some(theme.tag), bold: false });
        proof {
            let rb = right_block(*task, width as nat, cols, glyphs, today, size, theme);
            assert(tag_room(*task, width as nat, cols, glyphs, today) == room as int);
            assert(tag_ruled(*task, width as nat, cols, glyphs, today) == ruled);
            assert(pieces(right@) =~= rb);
        }
    } else {
        assert(pieces(right@) =~= right_block(*task, width as nat, cols, glyphs, today, size, theme));
    }
    right
}

/// One task, laid out: mark, title, then the date, priority and tags. Past
/// `COLUMNS_AT` those last three sit in fixed columns so the dates line up;
/// below it the right-hand block is pushed to the edge.
pub fn task_line(
    task: &Task,
    width: usize,
    cols: Columns,
    glyphs: Glyphs,
    today: Date,
    size: Size,
    theme: Theme,
) -> (r: Vec<Piece>)
    requires
        task.wf(),
        today.wf(),
    ensures
        pieces(r@) == task_pieces(*task, width as nat, cols, glyphs, today, size, theme),
{
    let colour = task_colour(task, today, theme);
    let mark = glyphs.mark(task, today);
    let mark_w: u128 = columns(mark) as u128 + 1;
    let right = right_pieces(task, width, cols, glyphs, today, size, theme);
    let ghost rb = right_block(*task, width as nat, cols, glyphs, today, size, theme);
    assert(pieces(right@) == rb);
    let mut for_title: usize = cols.title;
    let mut pad_to: usize = cols.title;
    if cols.title == 0 {
        let rw = width_of(&right);
        let pad = less(width as u128, mark_w + rw as u128) as usize;
        let least = less(width as u128, mark_w) as usize;
        let least = if least < 12 { least } else { 12 };
        for_title = if pad > least { pad } else { least };
        pad_to = pad;
    }
    assert((for_title as nat, pad_to as nat) == title_room(*task, width as nat, cols, rb, glyphs, today));
    let title = shorten(plain(task.title.as_str()).as_str(), for_title, glyphs);
    let gap = less(pad_to as u128, columns(title.as_str()) as u128) as usize;
    let mut head = String::new();
    push_str(&mut head, mark);
    push_char(&mut head, ' ');
    let mut out: Vec<Piece> = Vec::new();
    push_piece(&mut out, head, Ink { fg: Some(colour), bold: false });
    push_piece(&mut out, title, Ink { fg: Some(colour), bold: false });
    push_piece(&mut out, spaces_string(gap), Ink { fg: None, bold: false });
    let ghost front = pieces(out@);
    proof {
        let colour_ink = ink_of(task_colour_of(*task, today, theme));
        let room = title_room(*task, width as nat, cols, rb, glyphs, today);
        let t = shorten_text(clean(task.title@), room.0, glyphs);
        assert(front[0] == (mark_text(glyphs, *task, today) + seq![' '], colour_ink));
        assert(front[1] == (t, colour_ink));
        assert(front[2] == (spaces(sub0(room.1 as int, display_width(t) as int)), plain_ink()));
        assert(front =~= seq![
            (mark_text(glyphs, *task, today) + seq![' '], colour_ink),
            (t, colour_ink),
            (spaces(sub0(room.1 as int, display_width(t) as int)), plain_ink()),
        ]);
    }
    append_pieces(&mut out, right);
    assert(pieces(out@) =~= task_pieces(*task, width as nat, cols, glyphs, today, size, theme));
    out
}


pub open spec fn title_cols(t: Task) -> nat {
    display_width(clean(t.title@))
}

pub open spec fn date_cols(t: Task, today: Date, size: Size) -> nat {
    display_width(when_text(t, today, size))
}

pub open spec fn prio_cols(t: Task) -> nat {
    display_width(priority_text(t.priority))
}

/// What one row asks of the title, date and priority columns, and whether
/// it is tagged; nothing for a row that is not a task.
pub open spec fn row_needs(r: Row, today: Date, size: Size) -> (nat, nat, nat, bool) {
    match r {
        Row::Task(t) => (title_cols(t), date_cols(t, today, size), prio_cols(t), t.tags@.len() > 0),
        _ => (0, 0, 0, false),
    }
}

pub open spec fn larger(a: nat, b: nat) -> nat {
    if a > b {
        a
    } else {
        b
    }
}

/// The widest title, date and priority among the rows, and whether any of
/// them is tagged.
pub open spec fn needs(rows: Seq<Row>, today: Date, size: Size) -> (nat, nat, nat, bool)
    decreases rows.len(),
{
    if rows.len() == 0 {
        (0, 0, 0, false)
    } else {
        let rest = needs(rows.drop_last(), today, size);
        let here = row_needs(rows.last(), today, size);
        (larger(rest.0, here.0), larger(rest.1, here.1), larger(rest.2, here.2), rest.3 || here.3)
    }
}

/// A column's width with its rule in front, or nothing for an empty column.
pub open spec fn with_gap(w: nat) -> nat {
    if w == 0 {
        0
    } else {
        w + RULED as nat
    }
}

pub open spec fn capped(n: nat) -> nat {
    if n > usize::MAX {
        usize::MAX as nat
    } else {
        n
    }
}

pub open spec fn mark_width_of(g: Glyphs) -> nat {
    if g == Glyphs::Unicode {
        1
    } else {
        3
    }
}

pub open spec fn no_columns() -> Columns {
    Columns { title: 0, date: 0, prio: 0, tags: false }
}

/// Where the columns sit for these rows. Each is as wide as the widest
/// entry in it; tags reserve only the rule that opens their column; the
/// title gets the rest, as much as its widest needs and never under twelve
/// columns while the row has them.
pub open spec fn columns_of(rows: Seq<Row>, width: nat, g: Glyphs, today: Date, size: Size) -> Columns {
    if width < COLUMNS_AT {
        no_columns()
    } else {
        let most = needs(rows, today, size);
        let date = capped(with_gap(most.1));
        let prio = capped(with_gap(most.2));
        let mark = mark_width_of(g) + 1;
        let tags = most.3;
        let room = sub0(width as int, mark + date + prio + if tags {
            RULED as int
        } else {
            0
        });
        let least = if sub0(width as int, mark as int) < 12 {
            sub0(width as int, mark as int)
        } else {
            12
        };
        let fitted = if most.0 < room {
            most.0
        } else {
            room
        };
        Columns {
            title: (if fitted > least {
                fitted
            } else {
                least
            }) as usize,
            date: date as usize,
            prio: prio as usize,
            tags,
        }
    }
}

/// Where each column's divider sits in a task row, counted from the start
/// of the row: one past the end of the column before it.
pub open spec fn dividers_of(c: Columns, mark: nat) -> Seq<int> {
    if c.title == 0 {
        seq![]
    } else {
        let at0 = mark + c.title;
        let d = if c.date > 0 {
            seq![at0 + 1]
        } else {
            seq![]
        };
        let at1 = at0 + c.date;
        let p = if c.prio > 0 {
            seq![at1 + 1]
        } else {
            seq![]
        };
        let at2 = at1 + c.prio;
        let t = if c.tags && c.date + c.prio > 0 {
            seq![at2 + 1]
        } else {
            seq![]
        };
        d + p + t
    }
}

pub open spec fn as_ints(v: Seq<usize>) -> Seq<int> {
    v.map_values(|x: usize| x as int)
}

fn most(a: usize, b: usize) -> (r: usize)
    ensures
        r == (if a > b {
            a
        } else {
            b
        }),
{
    if a > b {
        a
    } else {
        b
    }
}

fn gap_width(w: usize) -> (r: usize)
    ensures
        r == capped(with_gap(w as nat)),
{
    if w == 0 {
        0
    } else {
        w.saturating_add(RULED)
    }
}

fn row_needs_of(row: &Row, today: Date, size: Size) -> (r: (usize, usize, usize, bool))
    requires
        today.wf(),
        row matches Row::Task(t) ==> t.wf(),
    ensures
        (r.0 as nat, r.1 as nat, r.2 as nat, r.3) == row_needs(*row, today, size),
{
    match row {
        Row::Task(t) => {
            let title = columns(plain(t.title.as_str()).as_str());
            let date = columns(crate::ui::when(t, today, size).as_str());
            let mut text = String::new();
            match t.priority {
                Some(p) => push_str(&mut text, p.as_str()),
                None => {},
            }
            assert(text@ == priority_text(t.priority));
            (title, date, columns(text.as_str()), t.tags.len() > 0)
        },
        _ => (0, 0, 0, false),
    }
}

impl Columns {
    /// The columns for these rows in a row `width` wide.
    pub fn of(rows: &[Row], width: usize, glyphs: Glyphs, today: Date, size: Size) -> (r: Columns)
        requires
            today.wf(),
            forall|i: int| 0 <= i < rows@.len() ==> (#[trigger] rows@[i] matches Row::Task(t) ==> t.wf()),
        ensures
            r == columns_of(rows@, width as nat, glyphs, today, size),
    {
        if width < COLUMNS_AT {
            return Columns { title: 0, date: 0, prio: 0, tags: false };
        }
        let mut title: usize = 0;
        let mut date: usize = 0;
        let mut prio: usize = 0;
        let mut tags = false;
        let mut i: usize = 0;
        while i < rows.len()
            invariant
                i <= rows@.len(),
                today.wf(),
                forall|j: int| 0 <= j < rows@.len() ==> (#[trigger] rows@[j] matches Row::Task(t) ==> t.wf()),
                (title as nat, date as nat, prio as nat, tags) == needs(rows@.take(i as int), today, size),
            decreases rows@.len() - i,
        {
            assert(rows@.take(i + 1).drop_last() =~= rows@.take(i as int));
            let (t, d, p, g) = row_needs_of(&rows[i], today, size);
            title = most(title, t);
            date = most(date, d);
            prio = most(prio, p);
            tags = tags || g;
            i += 1;
        }
        assert(rows@.take(rows@.len() as int) =~= rows@);
        let date = gap_width(date);
        let prio = gap_width(prio);
        let mark = glyphs.mark_width() + 1;
        let ruled: usize = if tags { RULED } else { 0 };
        let room = less(width as u128, mark as u128 + date as u128 + prio as u128 + ruled as u128) as usize;
        let least = less(width as u128, mark as u128) as usize;
        let least = if least < 12 { least } else { 12 };
        let fitted = if title < room { title } else { room };
        Columns { title: most(fitted, least), date, prio, tags }
    }

    /// Where each column's divider sits in a task row whose mark and its
    /// space take `mark` columns.
    pub fn dividers(&self, mark: usize) -> (r: Vec<usize>)
        requires
            mark + self.title + self.date + self.prio + 1 <= usize::MAX,
        ensures
            as_ints(r@) == dividers_of(*self, mark as nat),
    {
        let mut out: Vec<usize> = Vec::new();
        if self.title == 0 {
            assert(as_ints(out@) =~= dividers_of(*self, mark as nat));
            return out;
        }
        let mut at = mark + self.title;
        if self.date > 0 {
            out.push(at + 1);
        }
        at = at + self.date;
        if self.prio > 0 {
            out.push(at + 1);
        }
        at = at + self.prio;
        if self.tags && (self.date > 0 || self.prio > 0) {
            out.push(at + 1);
        }
        assert(as_ints(out@) =~= dividers_of(*self, mark as nat));
        out
    }
}

pub open spec fn rule_char(g: Glyphs) -> char {
    if g == Glyphs::Unicode {
        '\u{2500}'
    } else {
        '-'
    }
}

pub(crate) fn push_char_times(out: &mut String, c: char, n: usize)
    ensures
        final(out)@ == old(out)@ + repeated(seq![c], n as nat),
{
    let mut i: usize = 0;
    assert(old(out)@ + repeated(seq![c], 0) =~= old(out)@);
    while i < n
        invariant
            i <= n,
            out@ == old(out)@ + repeated(seq![c], i as nat),
        decreases n - i,
    {
        push_char(out, c);
        assert(out@ =~= old(out)@ + repeated(seq![c], (i + 1) as nat));
        i += 1;
    }
}

/// A group heading with a rule after it, as a folded group is drawn and
/// every group on a bare pane. Past the column breakpoint the rule ends with
/// the title column; below it, at the edge. A folded one names the key that
/// opens it.
pub open spec fn header_pieces(
    title: Seq<char>,
    count: nat,
    folded: bool,
    width: nat,
    cols: Columns,
    g: Glyphs,
    th: Theme,
) -> Seq<(Seq<char>, Ink)> {
    let name = heading_text(title, count, g);
    let tail: Seq<char> = if folded {
        seq![' ', 'l']
    } else {
        seq![]
    };
    let end = if cols.title == 0 {
        width
    } else if cols.title + mark_width_of(g) + 1 < width {
        (cols.title + mark_width_of(g) + 1) as nat
    } else {
        width
    };
    let rule = sub0(end as int, (display_width(name) + display_width(tail) + 2) as int);
    seq![
        (name, bold_of(th.accent)),
        (seq![' '] + repeated(seq![rule_char(g)], rule), ink_of(th.border)),
        (tail, ink_of(th.dim)),
    ]
}

pub fn header_line(
    title: &str,
    count: usize,
    folded: bool,
    width: usize,
    cols: Columns,
    glyphs: Glyphs,
    theme: Theme,
) -> (r: Vec<Piece>)
    ensures
        pieces(r@) == header_pieces(title@, count as nat, folded, width as nat, cols, glyphs, theme),
{
    let name = heading(title, count, glyphs);
    let mut tail = String::new();
    if folded {
        push_str(&mut tail, " l");
        proof {
            reveal_strlit(" l");
        }
    }
    assert(tail@ =~= (if folded { seq![' ', 'l'] } else { Seq::<char>::empty() }));
    let mark = glyphs.mark_width() as u128 + 1;
    let end: u128 = if cols.title == 0 {
        width as u128
    } else if (cols.title as u128) + mark < width as u128 {
        cols.title as u128 + mark
    } else {
        width as u128
    };
    let used = columns(name.as_str()) as u128 + columns(tail.as_str()) as u128 + 2;
    let rule = less(end, used) as usize;
    let mut line = String::new();
    push_char(&mut line, ' ');
    push_char_times(&mut line, glyphs.rule(), rule);
    assert(line@ =~= seq![' '] + repeated(seq![rule_char(glyphs)], rule as nat));
    let mut out: Vec<Piece> = Vec::new();
    push_piece(&mut out, name, Ink { fg: Some(theme.accent), bold: true });
    push_piece(&mut out, line, Ink { fg: Some(theme.border), bold: false });
    push_piece(&mut out, tail, Ink { fg: Some(theme.dim), bold: false });
    assert(pieces(out@) =~= header_pieces(title@, count as nat, folded, width as nat, cols, glyphs, theme));
    out
}

/// A task row with the group box's sides on it, padded to the full width
/// first so the right side is an edge and not wherever the tags ended.
pub open spec fn boxed_pieces(row: Seq<(Seq<char>, Ink)>, width: nat, g: Glyphs, th: Theme) -> Seq<
    (Seq<char>, Ink),
> {
    let side = (divider_text(g), ink_of(th.border));
    let pad = sub0(width as int, 2 + INSET + widths(row));
    seq![side, (spaces(INSET as nat), plain_ink())] + row + seq![(spaces(pad), plain_ink()), side]
}

pub fn boxed(row: Vec<Piece>, width: usize, glyphs: Glyphs, theme: Theme) -> (r: Vec<Piece>)
    ensures
        pieces(r@) == boxed_pieces(pieces(row@), width as nat, glyphs, theme),
{
    let border = Ink { fg: Some(theme.border), bold: false };
    let rw = width_of(&row);
    let pad = less(width as u128, 2 + INSET as u128 + rw as u128) as usize;
    let ghost inner = pieces(row@);
    let mut out: Vec<Piece> = Vec::new();
    let mut side = String::new();
    push_str(&mut side, glyphs.divider());
    push_piece(&mut out, side, border);
    push_piece(&mut out, spaces_string(INSET), Ink { fg: None, bold: false });
    append_pieces(&mut out, row);
    push_piece(&mut out, spaces_string(pad), Ink { fg: None, bold: false });
    let mut side = String::new();
    push_str(&mut side, glyphs.divider());
    push_piece(&mut out, side, border);
    assert(pieces(out@) =~= boxed_pieces(inner, width as nat, glyphs, theme));
    out
}


/// A group edge's opening corner, closing corner, and the junction a column
/// rule makes with it, on the top edge or the bottom one.
pub open spec fn edge_ends(top: bool, g: Glyphs) -> (Seq<char>, Seq<char>, Seq<char>) {
    if g == Glyphs::Ascii {
        ("+"@, "+"@, "+"@)
    } else if top {
        ("\u{256d}"@, "\u{256e}"@, "\u{252c}"@)
    } else {
        ("\u{2570}"@, "\u{256f}"@, "\u{2534}"@)
    }
}

/// The edge cell by cell: the corners at the ends, a junction wherever a
/// column rule meets it, the rule everywhere else.
pub open spec fn edge_cells(top: bool, width: nat, cols: Columns, g: Glyphs) -> Seq<Seq<char>> {
    let ends = edge_ends(top, g);
    let ds = dividers_of(cols, mark_width_of(g) + 1);
    Seq::new(
        width,
        |i: int|
            if i == 0 {
                ends.0
            } else if i == width - 1 {
                ends.1
            } else if ds.contains(i - 1 - INSET) {
                ends.2
            } else {
                seq![rule_char(g)]
            },
    )
}

/// Texts one after another.
pub open spec fn glue(cells: Seq<Seq<char>>) -> Seq<char>
    decreases cells.len(),
{
    if cells.len() == 0 {
        seq![]
    } else {
        glue(cells.drop_last()) + cells.last()
    }
}

/// A group's top or bottom edge: the same stroke and junctions either way,
/// with the group's heading drawn into it, cut rather than allowed to push
/// the closing corner off. A group with no name gets a bare edge.
pub open spec fn edge_pieces(
    top: bool,
    title: Seq<char>,
    count: nat,
    width: nat,
    cols: Columns,
    g: Glyphs,
    th: Theme,
) -> Seq<(Seq<char>, Ink)> {
    let border = ink_of(th.border);
    if width < 2 {
        seq![(repeated(seq![rule_char(g)], width), border)]
    } else {
        let cells = edge_cells(top, width, cols, g);
        let name = heading_text(title, count, g);
        if name.len() == 0 {
            seq![(glue(cells), border)]
        } else {
            let short = shorten_text(name, sub0(width as int, 5), g);
            let after = 3 + display_width(short) + 1;
            let rest = if after <= width {
                cells.subrange(after as int, width as int)
            } else {
                seq![]
            };
            seq![
                (edge_ends(top, g).0 + seq![rule_char(g), ' '], border),
                (short, bold_of(th.accent)),
                (seq![' '] + glue(rest), border),
            ]
        }
    }
}

fn edge_glyphs(top: bool, g: Glyphs) -> (r: (&'static str, &'static str, &'static str))
    ensures
        (r.0@, r.1@, r.2@) == edge_ends(top, g),
{
    let corners = g.corners();
    let (down, up) = g.junctions();
    proof {
        reveal_strlit("+");
    }
    if top {
        (corners[0], corners[1], down)
    } else {
        (corners[2], corners[3], up)
    }
}

fn glue_from(cells: &Vec<String>, from: usize) -> (r: String)
    requires
        from <= cells@.len(),
    ensures
        r@ == glue(views(cells@).subrange(from as int, cells@.len() as int)),
{
    let mut out = String::new();
    let mut i = from;
    assert(views(cells@).subrange(from as int, from as int) =~= Seq::<Seq<char>>::empty());
    while i < cells.len()
        invariant
            from <= i <= cells@.len(),
            out@ == glue(views(cells@).subrange(from as int, i as int)),
        decreases cells@.len() - i,
    {
        assert(views(cells@).subrange(from as int, i + 1).drop_last() =~= views(cells@).subrange(
            from as int,
            i as int,
        ));
        push_str(&mut out, cells[i].as_str());
        i += 1;
    }
    out
}

pub(crate) fn string_from(s: &str) -> (r: String)
    ensures
        r@ == s@,
{
    let mut out = String::new();
    push_str(&mut out, s);
    out
}

/// The edge's cells, built one by one: every glyph in it is one column, so
/// a cell's index is its column on the screen.
fn edge_strings(top: bool, width: usize, cols: Columns, g: Glyphs) -> (r: Vec<String>)
    requires
        width >= 2,
        cols.title + cols.date + cols.prio + 5 <= usize::MAX,
    ensures
        views(r@) == edge_cells(top, width as nat, cols, g),
{
    let (open, close, junction) = edge_glyphs(top, g);
    let ghost ends = edge_ends(top, g);
    let ghost rule = seq![rule_char(g)];
    let mut rule_s = String::new();
    push_char(&mut rule_s, g.rule());
    let mut cells: Vec<String> = Vec::new();
    let mut i: usize = 0;
    while i < width
        invariant
            i <= width,
            rule_s@ == rule,
            cells@.len() == i,
            forall|k: int| 0 <= k < i ==> (#[trigger] cells@[k])@ == rule,
        decreases width - i,
    {
        cells.push(rule_s.clone());
        i += 1;
    }
    cells.set(0, string_from(open));
    cells.set(width - 1, string_from(close));
    let ds = cols.dividers(g.mark_width() + 1);
    let ghost dv = dividers_of(cols, mark_width_of(g) + 1);
    let mut j: usize = 0;
    while j < ds.len()
        invariant
            j <= ds@.len(),
            width >= 2,
            junction@ == ends.2,
            as_ints(ds@) == dv,
            cells@.len() == width,
            forall|k: int|
                0 <= k < width ==> (#[trigger] cells@[k])@ == (if k == 0 {
                    ends.0
                } else if k == width - 1 {
                    ends.1
                } else if dv.take(j as int).contains(k - 1 - INSET) {
                    ends.2
                } else {
                    rule
                }),
        decreases ds@.len() - j,
    {
        let at = ds[j];
        assert(dv[j as int] == at as int);
        let ghost c0 = cells@;
        let fits = width >= 3 && at < width - 3;
        if fits {
            cells.set(at + 1 + INSET, string_from(junction));
        }
        proof {
            assert forall|k: int| 0 <= k < width implies (#[trigger] cells@[k])@ == (if k == 0 {
                ends.0
            } else if k == width - 1 {
                ends.1
            } else if dv.take(j + 1).contains(k - 1 - INSET) {
                ends.2
            } else {
                rule
            }) by {
                let x = k - 1 - INSET;
                assert(dv.take(j + 1)[j as int] == at as int);
                if dv.take(j as int).contains(x) {
                    let w = choose|w: int| 0 <= w < j && #[trigger] dv.take(j as int)[w] == x;
                    assert(dv.take(j + 1)[w] == x);
                }
                if dv.take(j + 1).contains(x) {
                    let w = choose|w: int| 0 <= w < j + 1 && #[trigger] dv.take(j + 1)[w] == x;
                    if w < j {
                        assert(dv.take(j as int)[w] == x);
                    }
                }
                if !(fits && k == at + 1 + INSET) {
                    assert(cells@[k] == c0[k]);
                }
            }
        }
        j += 1;
    }
    assert(dv.take(ds@.len() as int) =~= dv);
    assert(views(cells@) =~= edge_cells(top, width as nat, cols, g));
    cells
}

pub fn group_edge(
    top: bool,
    title: &str,
    count: usize,
    width: usize,
    cols: Columns,
    glyphs: Glyphs,
    theme: Theme,
) -> (r: Vec<Piece>)
    requires
        cols.title + cols.date + cols.prio + 5 <= usize::MAX,
    ensures
        pieces(r@) == edge_pieces(top, title@, count as nat, width as nat, cols, glyphs, theme),
{
    let border = Ink { fg: Some(theme.border), bold: false };
    let mut out: Vec<Piece> = Vec::new();
    if width < 2 {
        let mut line = String::new();
        push_char_times(&mut line, glyphs.rule(), width);
        assert(line@ =~= repeated(seq![rule_char(glyphs)], width as nat));
        push_piece(&mut out, line, border);
        assert(pieces(out@) =~= edge_pieces(top, title@, count as nat, width as nat, cols, glyphs, theme));
        return out;
    }
    let cells = edge_strings(top, width, cols, glyphs);
    let name = heading(title, count, glyphs);
    if name.as_str().unicode_len() == 0 {
        let all = glue_from(&cells, 0);
        assert(views(cells@).subrange(0, width as int) =~= views(cells@));
        push_piece(&mut out, all, border);
        assert(pieces(out@) =~= edge_pieces(top, title@, count as nat, width as nat, cols, glyphs, theme));
        return out;
    }
    let short = shorten(name.as_str(), less(width as u128, 5) as usize, glyphs);
    let after: u128 = 3 + columns(short.as_str()) as u128 + 1;
    let mut tail = String::new();
    push_char(&mut tail, ' ');
    if after <= width as u128 {
        let rest = glue_from(&cells, after as usize);
        push_str(&mut tail, rest.as_str());
        assert(views(cells@).subrange(after as int, width as int) =~= edge_cells(top, width as nat, cols, glyphs).subrange(after as int, width as int));
    } else {
        assert(glue(Seq::<Seq<char>>::empty()) =~= Seq::<char>::empty());
    }
    let (open, _, _) = edge_glyphs(top, glyphs);
    let mut lead = String::new();
    push_str(&mut lead, open);
    push_char(&mut lead, glyphs.rule());
    push_char(&mut lead, ' ');
    assert(lead@ =~= edge_ends(top, glyphs).0 + seq![rule_char(glyphs), ' ']);
    let ghost cells_spec = edge_cells(top, width as nat, cols, glyphs);
    let ghost rest = if after <= width as u128 {
        cells_spec.subrange(after as int, width as int)
    } else {
        Seq::<Seq<char>>::empty()
    };
    assert(tail@ =~= seq![' '] + glue(rest));
    push_piece(&mut out, lead, border);
    push_piece(&mut out, short, Ink { fg: Some(theme.accent), bold: true });
    push_piece(&mut out, tail, border);
    assert(pieces(out@) =~= edge_pieces(top, title@, count as nat, width as nat, cols, glyphs, theme));
    out
}


pub open spec fn warn_mark(g: Glyphs) -> Seq<char> {
    if g == Glyphs::Unicode {
        "\u{26a0}"@
    } else {
        "!"@
    }
}

/// The one line under the frame: the keys that do something, or what was
/// just done, or a refusal in the warning colour. A short pane gets only
/// the key for help, a narrow one the keys without words.
pub open spec fn notice_piece(n: Notice, size: Size, width: nat, height: nat, g: Glyphs, th: Theme) -> (
    Seq<char>,
    Ink,
) {
    match n {
        Notice::Hints => if height < 10 {
            (" ?"@, ink_of(th.dim))
        } else if size == Size::Wide {
            (hints_text(width, g), ink_of(th.dim))
        } else {
            (" [j k] [spc] [a] [d] [p] [?] [q]"@, ink_of(th.dim))
        },
        Notice::Said(t) => (seq![' '] + t@, ink_of(th.dim)),
        Notice::Warned(t) => (seq![' '] + warn_mark(g) + seq![' '] + t@, ink_of(th.overdue)),
    }
}

pub fn notice_line(notice: &Notice, size: Size, width: usize, height: u16, glyphs: Glyphs, theme: Theme) -> (r: Piece)
    ensures
        r@ == notice_piece(*notice, size, width as nat, height as nat, glyphs, theme),
{
    let dim = Ink { fg: Some(theme.dim), bold: false };
    match notice {
        Notice::Hints => {
            if height < 10 {
                piece(string_from(" ?"), dim)
            } else if size == Size::Wide {
                piece(hints(width, glyphs), dim)
            } else {
                piece(string_from(" [j k] [spc] [a] [d] [p] [?] [q]"), dim)
            }
        },
        Notice::Said(text) => {
            let mut s = String::new();
            push_char(&mut s, ' ');
            push_str(&mut s, text.as_str());
            piece(s, dim)
        },
        Notice::Warned(text) => {
            let mut s = String::new();
            push_char(&mut s, ' ');
            match glyphs {
                Glyphs::Unicode => push_str(&mut s, "\u{26a0}"),
                Glyphs::Ascii => push_str(&mut s, "!"),
            }
            push_char(&mut s, ' ');
            push_str(&mut s, text.as_str());
            assert(s@ =~= seq![' '] + warn_mark(glyphs) + seq![' '] + text@);
            piece(s, Ink { fg: Some(theme.overdue), bold: false })
        },
    }
}

pub open spec fn tee_text(g: Glyphs) -> (Seq<char>, Seq<char>) {
    if g == Glyphs::Unicode {
        ("\u{251c}"@, "\u{2524}"@)
    } else {
        ("+"@, "+"@)
    }
}

/// A rule the full width of the frame, meeting it at both ends.
pub open spec fn rule_across_piece(width: nat, g: Glyphs, th: Theme) -> (Seq<char>, Ink) {
    (
        tee_text(g).0 + repeated(seq![rule_char(g)], sub0(width as int, 2)) + tee_text(g).1,
        ink_of(th.border),
    )
}

pub fn rule_across(width: usize, glyphs: Glyphs, theme: Theme) -> (r: Piece)
    ensures
        r@ == rule_across_piece(width as nat, glyphs, theme),
{
    let (left, right) = glyphs.tee();
    let mut s = String::new();
    push_str(&mut s, left);
    push_char_times(&mut s, glyphs.rule(), if width > 2 { width - 2 } else { 0 });
    push_str(&mut s, right);
    proof {
        reveal_strlit("+");
    }
    assert(s@ =~= rule_across_piece(width as nat, glyphs, theme).0);
    piece(s, Ink { fg: Some(theme.border), bold: false })
}

/// What the footer shows of a task: its line as the file will have it,
/// which is the line as read until the tool has changed it.
pub open spec fn footer_source(task: Option<Task>) -> Seq<char> {
    match task {
        Some(t) => if t.dirty {
            crate::model::rendered(t.state, t.title@, t.due, views(t.tags@), t.priority)
        } else {
            t.raw@
        },
        None => seq![],
    }
}

/// The selected task's line under the list, cut to the footer's width.
pub open spec fn footer_piece(task: Option<Task>, width: nat, g: Glyphs, th: Theme) -> (Seq<char>, Ink) {
    (
        seq![' ', ' '] + shorten_text(clean(footer_source(task)), sub0(width as int, 2), g),
        ink_of(th.dim),
    )
}

pub fn footer_line(task: Option<&Task>, width: usize, glyphs: Glyphs, theme: Theme) -> (r: Piece)
    requires
        task matches Some(t) ==> (t.due matches Some(d) ==> d.wf()),
    ensures
        r@ == footer_piece(
            match task {
                Some(t) => Some(*t),
                None => None,
            },
            width as nat,
            glyphs,
            theme,
        ),
{
    let raw = match task {
        Some(t) => {
            if t.dirty {
                t.line()
            } else {
                string_from(t.raw.as_str())
            }
        },
        None => String::new(),
    };
    let short = shorten(plain(raw.as_str()).as_str(), if width > 2 { width - 2 } else { 0 }, glyphs);
    let mut s = String::new();
    push_str(&mut s, "  ");
    push_str(&mut s, short.as_str());
    proof {
        reveal_strlit("  ");
    }
    assert(s@ =~= seq![' ', ' '] + short@);
    piece(s, Ink { fg: Some(theme.dim), bold: false })
}

pub open spec fn bar_glyphs(g: Glyphs) -> (Seq<char>, Seq<char>) {
    if g == Glyphs::Unicode {
        ("\u{25b0}"@, "\u{25b1}"@)
    } else {
        ("#"@, "-"@)
    }
}

/// The done count as a bar against everything, once something is done and
/// while the title bar has room for it beside what is already there.
pub open spec fn progress_pieces(open: nat, done: nat, width: nat, left: nat, g: Glyphs, th: Theme) -> Option<
    Seq<(Seq<char>, Ink)>,
> {
    let total = open + done;
    let text = seq![' '] + digits(done) + seq!['/'] + digits(total) + seq![' '];
    if done == 0 || left + BAR + display_width(text) + 4 > width {
        None
    } else {
        let cells = filled_cells(done, total);
        let bar = bar_glyphs(g);
        Some(
            seq![
                (seq![' '], plain_ink()),
                (repeated(bar.0, cells), ink_of(th.done)),
                (repeated(bar.1, (BAR - cells) as nat), ink_of(th.border)),
                (text, ink_of(th.dim)),
            ],
        )
    }
}

pub fn progress(counts: Counts, width: usize, left: usize, glyphs: Glyphs, theme: Theme) -> (r: Option<Vec<Piece>>)
    requires
        counts.open + counts.done <= usize::MAX,
        counts.done * 8 <= usize::MAX,
    ensures
        match progress_pieces(counts.open as nat, counts.done as nat, width as nat, left as nat, glyphs, theme) {
            Some(ps) => r matches Some(v) && pieces(v@) == ps,
            None => r is None,
        },
{
    let total = counts.open + counts.done;
    let mut text = String::new();
    push_char(&mut text, ' ');
    push_str(&mut text, decimal(counts.done as u64).as_str());
    push_char(&mut text, '/');
    push_str(&mut text, decimal(total as u64).as_str());
    push_char(&mut text, ' ');
    assert(text@ =~= seq![' '] + digits(counts.done as nat) + seq!['/'] + digits(total as nat) + seq![' ']);
    if counts.done == 0 || left as u128 + BAR as u128 + columns(text.as_str()) as u128 + 4 > width as u128 {
        return None;
    }
    let (on, off) = glyphs.bar();
    let cells = filled(counts.done, total);
    let mut full = String::new();
    push_repeated(&mut full, on, cells);
    let mut empty = String::new();
    push_repeated(&mut empty, off, BAR - cells);
    proof {
        reveal_strlit("#");
        reveal_strlit("-");
        assert(full@ =~= repeated(bar_glyphs(glyphs).0, cells as nat));
        assert(empty@ =~= repeated(bar_glyphs(glyphs).1, (BAR - cells) as nat));
    }
    let mut out: Vec<Piece> = Vec::new();
    push_piece(&mut out, string_from(" "), Ink { fg: None, bold: false });
    push_piece(&mut out, full, Ink { fg: Some(theme.done), bold: false });
    push_piece(&mut out, empty, Ink { fg: Some(theme.border), bold: false });
    push_piece(&mut out, text, Ink { fg: Some(theme.dim), bold: false });
    proof {
        reveal_strlit(" ");
        let ps = progress_pieces(counts.open as nat, counts.done as nat, width as nat, left as nat, glyphs, theme);
        assert(cells <= BAR);
        assert(ps is Some);
        assert(pieces(out@)[0] == ps.unwrap()[0]);
        assert(pieces(out@)[1] == ps.unwrap()[1]);
        assert(pieces(out@)[2] == ps.unwrap()[2]);
        assert(pieces(out@)[3] == ps.unwrap()[3]);
    }
    assert(pieces(out@) =~= progress_pieces(counts.open as nat, counts.done as nat, width as nat, left as nat, glyphs, theme).unwrap());
    Some(out)
}


/// What the front of a text cut to a width keeps is a front of it.
pub proof fn lemma_lead_take_prefix(cs: Seq<char>, limit: nat)
    ensures
        lead_take(cs, limit).len() <= cs.len(),
        lead_take(cs, limit) == cs.take(lead_take(cs, limit).len() as int),
    decreases cs.len(),
{
    if cs.len() > 0 && char_columns(cs[0]) <= limit {
        let rest = cs.drop_first();
        lemma_lead_take_prefix(rest, (limit - char_columns(cs[0])) as nat);
        assert(lead_take(cs, limit) =~= cs.take(lead_take(cs, limit).len() as int));
    } else {
        assert(lead_take(cs, limit) =~= cs.take(0));
    }
}

/// What the back of a text cut to a width keeps is a back of it.
pub proof fn lemma_tail_take_suffix(cs: Seq<char>, limit: nat)
    ensures
        tail_take(cs, limit).len() <= cs.len(),
        tail_take(cs, limit) == cs.skip(cs.len() - tail_take(cs, limit).len()),
    decreases cs.len(),
{
    if cs.len() > 0 && char_columns(cs.last()) <= limit {
        let rest = cs.drop_last();
        lemma_tail_take_suffix(rest, (limit - char_columns(cs.last())) as nat);
        assert(tail_take(cs, limit) =~= cs.skip(cs.len() - tail_take(cs, limit).len()));
    } else {
        assert(tail_take(cs, limit) =~= cs.skip(cs.len() as int));
    }
}

pub open spec fn label_of(p: Purpose) -> Seq<char> {
    match p {
        Purpose::Add => "ADD"@,
        Purpose::Copy => "COPY"@,
        Purpose::Edit(_) => "EDIT"@,
        Purpose::Postpone(_) => "PUT OFF"@,
    }
}

pub open spec fn field_glyph(g: Glyphs) -> Seq<char> {
    if g == Glyphs::Unicode {
        "\u{258f}"@
    } else {
        "|"@
    }
}

/// ` ADD ▏`: what the box is for, and the caret glyph after it.
pub open spec fn head_text(p: Purpose, g: Glyphs) -> Seq<char> {
    seq![' '] + label_of(p) + seq![' '] + field_glyph(g)
}

/// Heavy and plain, but for a copy, which is the one label with news.
pub open spec fn label_ink(p: Purpose, th: Theme) -> Ink {
    if p is Copy {
        bold_of(th.accent)
    } else {
        bold_of(th.foreground)
    }
}

/// The part of the typed line on screen, anchored on the caret: what is
/// before it fills the field from the right, and what room is left shows
/// what comes after.
pub open spec fn before_caret(v: Seq<char>, k: int, width: nat, p: Purpose, g: Glyphs) -> Seq<char> {
    tail_text(v.take(k), sub0(width as int, display_width(head_text(p, g)) as int))
}

pub open spec fn after_caret(v: Seq<char>, k: int, width: nat, p: Purpose, g: Glyphs) -> Seq<char> {
    let room = sub0(width as int, display_width(head_text(p, g)) as int);
    lead_text(v.skip(k), sub0(room as int, display_width(before_caret(v, k, width, p, g)) as int))
}

/// The column the caret is drawn in.
pub open spec fn caret_column(v: Seq<char>, k: int, width: nat, p: Purpose, g: Glyphs) -> nat {
    let at = display_width(head_text(p, g)) + display_width(before_caret(v, k, width, p, g));
    let last = sub0(width as int, 1);
    if at < last {
        at
    } else {
        last
    }
}

/// What colour a parsed word gets, on the typed line and under it alike.
pub open spec fn paint_ink(part: Part, pri: Option<Priority>, plain: Ink, th: Theme) -> Ink {
    match part {
        Part::Tag => ink_of(th.tag),
        Part::Priority => priority_ink_of(pri, plain, th),
        _ => ink_of(th.accent),
    }
}

pub open spec fn larger_int(a: int, b: int) -> int {
    if a > b {
        a
    } else {
        b
    }
}

pub open spec fn smaller_int(a: int, b: int) -> int {
    if a < b {
        a
    } else {
        b
    }
}

/// The typed text between `from` and `to`, from the `i`th parsed word on,
/// with every word the parser took coloured as what it is and the rest
/// plain; and where the colouring stopped.
pub open spec fn colour_run(
    ps: Seq<((int, int), Part)>,
    i: int,
    cut: int,
    from: int,
    to: int,
    v: Seq<char>,
    pri: Option<Priority>,
    plain: Ink,
    th: Theme,
    moving: bool,
) -> (Seq<(Seq<char>, Ink)>, int)
    decreases ps.len() - i,
{
    if i < 0 || i >= ps.len() {
        (seq![], cut)
    } else {
        let w = ps[i].0;
        let part = ps[i].1;
        if moving || part == Part::Text || w.1 <= from || w.0 >= to {
            colour_run(ps, i + 1, cut, from, to, v, pri, plain, th, moving)
        } else {
            let start = larger_int(w.0, from);
            let end = smaller_int(w.1, to);
            let gap = if start > cut {
                seq![(v.subrange(cut, start), plain)]
            } else {
                seq![]
            };
            let rest = colour_run(ps, i + 1, end, from, to, v, pri, plain, th, moving);
            (gap + seq![(v.subrange(start, end), paint_ink(part, pri, plain, th))] + rest.0, rest.1)
        }
    }
}

/// The typed line in the input box: its label, the caret glyph, and the
/// part of the text on screen coloured by what the parser took. A length of
/// time being typed for `p` is one word, the accent once it names a day.
pub open spec fn field_pieces(
    input: Input,
    width: nat,
    today: Date,
    g: Glyphs,
    th: Theme,
    pri: Option<Priority>,
    lands: bool,
) -> Seq<(Seq<char>, Ink)> {
    let v = input.text@;
    let k = input.caret_at();
    let from = k - before_caret(v, k, width, input.purpose, g).len();
    let to = k + after_caret(v, k, width, input.purpose, g).len();
    let plain = ink_of(th.foreground);
    let moving = input.purpose is Postpone;
    let run = colour_run(parts_of(v, today), 0, from, from, to, v, pri, plain, th, moving);
    let last = if run.1 < to {
        seq![
            (v.subrange(run.1, to), if moving && lands {
                ink_of(th.accent)
            } else {
                plain
            }),
        ]
    } else {
        seq![]
    };
    seq![
        (seq![' '] + label_of(input.purpose), label_ink(input.purpose, th)),
        (seq![' '] + field_glyph(g), ink_of(th.dim)),
    ] + run.0 + last
}

fn chars_string(v: &Vec<char>, from: usize, to: usize) -> (r: String)
    requires
        from <= to <= v@.len(),
    ensures
        r@ == v@.subrange(from as int, to as int),
{
    string_of(&slice_chars(v, from, to))
}

/// The typed line and the column its caret is drawn in, for a box `width`
/// columns wide inside its border. `pri` is the priority the line parses to
/// and `lands` whether it names a day to put a task off to.
pub fn field_line(
    input: &Input,
    width: usize,
    today: Date,
    glyphs: Glyphs,
    theme: Theme,
    pri: Option<Priority>,
    lands: bool,
) -> (r: (Vec<Piece>, usize))
    requires
        input.wf(),
        today.wf(),
    ensures
        pieces(r.0@) == field_pieces(*input, width as nat, today, glyphs, theme, pri, lands),
        r.1 == caret_column(input.text@, input.caret_at(), width as nat, input.purpose, glyphs),
{
    let v = chars_of(input.text.as_str());
    let k = caret_index(&v, input.at);
    let ghost gv = v@;
    let ghost p = input.purpose;
    let mut name = String::new();
    push_char(&mut name, ' ');
    push_str(&mut name, input.purpose.label());
    let mut caret = String::new();
    push_char(&mut caret, ' ');
    push_str(&mut caret, glyphs.field());
    let mut head = String::new();
    push_str(&mut head, name.as_str());
    push_str(&mut head, caret.as_str());
    assert(head@ =~= head_text(p, glyphs));
    let hw = columns(head.as_str());
    let room = less(width as u128, hw as u128) as usize;
    let front = chars_string(&v, 0, k);
    let before = tail(front.as_str(), room);
    let bw = columns(before.as_str());
    let back = chars_string(&v, k, v.len());
    let after = lead(back.as_str(), less(room as u128, bw as u128) as usize);
    proof {
        assert(front@ =~= gv.take(k as int));
        assert(back@ =~= gv.skip(k as int));
        lemma_tail_take_suffix(gv.take(k as int), room as nat);
        lemma_lead_take_prefix(gv.skip(k as int), sub0(room as int, bw as int));
    }
    let nb = chars_of(before.as_str()).len();
    let na = chars_of(after.as_str()).len();
    let from = k - nb;
    let to = k + na;
    let ghost want_from = k - before_caret(gv, k as int, width as nat, p, glyphs).len();
    let ghost want_to = k + after_caret(gv, k as int, width as nat, p, glyphs).len();
    assert(from == want_from && to == want_to);
    let plain = Ink { fg: Some(theme.foreground), bold: false };
    let moving = match &input.purpose {
        Purpose::Postpone(_) => true,
        _ => false,
    };
    let label = match &input.purpose {
        Purpose::Copy => Ink { fg: Some(theme.accent), bold: true },
        _ => Ink { fg: Some(theme.foreground), bold: true },
    };
    let mut out: Vec<Piece> = Vec::new();
    push_piece(&mut out, name, label);
    push_piece(&mut out, caret, Ink { fg: Some(theme.dim), bold: false });
    let ghost base = pieces(out@);
    let ps = parts_chars(&v, today);
    let ghost gps = parts_of(gv, today);
    proof {
        crate::form::lemma_parts_good(gv, today);
    }
    let ghost total = colour_run(gps, 0, from as int, from as int, to as int, gv, pri, plain, theme, moving);
    let mut cut = from;
    let mut i: usize = 0;
    while i < ps.len()
        invariant
            i <= ps@.len(),
            part_spans(ps@) == gps,
            gps == parts_of(gv, today),
            v@ == gv,
            from <= cut <= to <= gv.len(),
            good_spans(gv, gps.map_values(|q: ((int, int), Part)| q.0), 0),
            base + colour_run(gps, 0, from as int, from as int, to as int, gv, pri, plain, theme, moving).0
                == pieces(out@) + colour_run(gps, i as int, cut as int, from as int, to as int, gv, pri, plain, theme, moving).0,
            total.1 == colour_run(gps, i as int, cut as int, from as int, to as int, gv, pri, plain, theme, moving).1,
            total == colour_run(gps, 0, from as int, from as int, to as int, gv, pri, plain, theme, moving),
        decreases ps@.len() - i,
    {
        let ((ws, we), part) = ps[i];
        let ghost q = gps[i as int];
        assert(q == ((ws as int, we as int), part));
        assert(gps.map_values(|q: ((int, int), Part)| q.0)[i as int] == (ws as int, we as int));
        if moving || part == Part::Text || we <= from || ws >= to {
            i += 1;
        } else {
            let start = if ws > from { ws } else { from };
            let end = if we < to { we } else { to };
            let ghost before_out = pieces(out@);
            if start > cut {
                push_piece(&mut out, chars_string(&v, cut, start), plain);
            }
            push_piece(&mut out, chars_string(&v, start, end), paint(part, pri, plain, theme));
            proof {
                let here = colour_run(gps, i as int, cut as int, from as int, to as int, gv, pri, plain, theme, moving);
                let rest = colour_run(gps, i + 1, end as int, from as int, to as int, gv, pri, plain, theme, moving);
                let gap: Seq<(Seq<char>, Ink)> = if start > cut {
                    seq![(gv.subrange(cut as int, start as int), plain)]
                } else {
                    seq![]
                };
                assert(here.0 == gap + seq![(gv.subrange(start as int, end as int), paint_ink(part, pri, plain, theme))] + rest.0);
                assert(pieces(out@) =~= before_out + gap + seq![(gv.subrange(start as int, end as int), paint_ink(part, pri, plain, theme))]);
                assert(before_out + here.0 =~= pieces(out@) + rest.0);
            }
            cut = end;
            i += 1;
        }
    }
    assert(colour_run(gps, i as int, cut as int, from as int, to as int, gv, pri, plain, theme, moving).0 =~= Seq::<(Seq<char>, Ink)>::empty());
    if cut < to {
        let ink = if moving && lands {
            Ink { fg: Some(theme.accent), bold: false }
        } else {
            plain
        };
        push_piece(&mut out, chars_string(&v, cut, to), ink);
    }
    assert(pieces(out@) =~= field_pieces(*input, width as nat, today, glyphs, theme, pri, lands));
    let at = hw as u128 + bw as u128;
    let last = less(width as u128, 1);
    let col = if at < last { at } else { last };
    (out, col as usize)
}

fn paint(part: Part, pri: Option<Priority>, plain: Ink, theme: Theme) -> (r: Ink)
    ensures
        r == paint_ink(part, pri, plain, theme),
{
    match part {
        Part::Tag => Ink { fg: Some(theme.tag), bold: false },
        Part::Priority => priority_ink(pri, plain, theme),
        _ => Ink { fg: Some(theme.accent), bold: false },
    }
}


pub open spec fn arrows_text(g: Glyphs) -> Seq<char> {
    if g == Glyphs::Unicode {
        "\u{2193} \u{2191}"@
    } else {
        "down up"@
    }
}

/// The date field's three parts, the one under the cursor heavy in the
/// accent.
pub open spec fn cells_pieces(f: DateField, th: Theme) -> Seq<(Seq<char>, Ink)> {
    let plain = ink_of(th.foreground);
    let hot = bold_of(th.accent);
    seq![
        (cell_text(f.part == DatePart::Day, padded(f.day as nat, 2)), if f.part == DatePart::Day {
            hot
        } else {
            plain
        }),
        (cell_text(f.part == DatePart::Month, padded(f.month as nat, 2)), if f.part
            == DatePart::Month {
            hot
        } else {
            plain
        }),
        (cell_text(f.part == DatePart::Year, year_cell(f.year as int)), if f.part == DatePart::Year {
            hot
        } else {
            plain
        }),
    ]
}

/// The parsed fields from the `k`th on, each in its colour, a column rule
/// between two.
pub open spec fn field_run(
    fp: Seq<(Part, Seq<char>)>,
    k: int,
    pri: Option<Priority>,
    plain: Ink,
    g: Glyphs,
    th: Theme,
) -> Seq<(Seq<char>, Ink)>
    decreases fp.len() - k,
{
    if k < 0 || k >= fp.len() {
        seq![]
    } else {
        let sep = if k > 0 {
            seq![(ruled_text(g), ink_of(th.border))]
        } else {
            seq![]
        };
        sep + seq![(fp[k].1, paint_ink(fp[k].0, pri, plain, th))] + field_run(fp, k + 1, pri, plain, g, th)
    }
}

pub open spec fn empty_hint(several: bool) -> Seq<char> {
    if several {
        "@thu #home !high $list"@
    } else {
        "@thu #home !high"@
    }
}

/// The row under the typed line: what it will become. The date field while
/// it is open; for `p`, the day it lands on or what a length looks like; for
/// an empty box, an example; otherwise the parsed fields in their colours.
pub open spec fn preview_pieces(
    input: Input,
    parsed: Task,
    lands: Option<Date>,
    names: Seq<Seq<char>>,
    today: Date,
    g: Glyphs,
    th: Theme,
) -> Seq<(Seq<char>, Ink)> {
    let several = names.len() > 1;
    let dim = ink_of(th.dim);
    let front = seq![(spaces(6), dim)];
    match input.field {
        Some(f) => front + cells_pieces(f, th) + seq![(seq![' '] + arrows_text(g), dim)],
        None => if input.purpose is Postpone {
            match lands {
                Some(d) => front + seq![
                    (crate::text::relative_text(Due { date: d, time: None }, today), ink_of(th.accent)),
                ],
                None => front + seq![("how long?  2   3d   1w   fri"@, dim)],
            }
        } else if trim(input.text@).len() == 0 {
            front + seq![(empty_hint(several), dim)]
        } else {
            let fp = crate::text::field_parts_of(parsed, today);
            let a = address_pieces(input, names, today, g, th);
            front + a + (if a.len() > 0 && fp.len() > 0 {
                seq![(ruled_text(g), ink_of(th.border))]
            } else {
                Seq::<(Seq<char>, Ink)>::empty()
            }) + field_run(fp, 0, parsed.priority, ink_of(th.foreground), g, th)
        },
    }
}

pub open spec fn arrow_text(g: Glyphs) -> Seq<char> {
    if g == Glyphs::Unicode {
        "\u{2192}"@
    } else {
        "->"@
    }
}

/// Whether `name` could still grow into the name of one of the lists.
pub open spec fn becoming(names: Seq<Seq<char>>, name: Seq<char>) -> bool {
    exists|i: int| 0 <= i < names.len() && name.len() <= names[i].len() && #[trigger] names[i].take(name.len() as int) == name
}

/// What the preview says of a `$word`: the list it sends the task to, or,
/// once it can no longer become one of them, that there is no such list.
/// Nothing for an edit, which is never addressed.
pub open spec fn address_pieces(input: Input, names: Seq<Seq<char>>, today: Date, g: Glyphs, th: Theme) -> Seq<(Seq<char>, Ink)> {
    if input.purpose is Edit {
        Seq::empty()
    } else {
        match crate::live::list_word(input.text@, today) {
            None => Seq::empty(),
            Some(name) => match crate::live::first_named(names, name, 0) {
                Some(i) => seq![(arrow_text(g) + " "@ + names[i], ink_of(th.accent))],
                None => if becoming(names, name) {
                    Seq::empty()
                } else {
                    seq![("no list "@ + name + ".md"@, ink_of(th.overdue))]
                },
            },
        }
    }
}

fn starts_with_chars(whole: &Vec<char>, part: &Vec<char>) -> (r: bool)
    ensures
        r == (part@.len() <= whole@.len() && whole@.take(part@.len() as int) == part@),
{
    if part.len() > whole.len() {
        return false;
    }
    let head = slice_chars(whole, 0, part.len());
    assert(head@ =~= whole@.take(part@.len() as int));
    crate::strs::same_chars(&head, part)
}

/// The preview's word on a `$word`, as `address_pieces` says.
fn address(input: &Input, lists: &[String], today: Date, g: Glyphs, th: Theme) -> (r: Vec<Piece>)
    requires
        today.wf(),
    ensures
        pieces(r@) == address_pieces(*input, crate::live::names_view(lists@), today, g, th),
{
    let ghost nv = crate::live::names_view(lists@);
    let mut out: Vec<Piece> = Vec::new();
    match &input.purpose {
        Purpose::Edit(_) => {
            return out;
        },
        _ => {},
    }
    let name = match crate::live::list_of(input.text.as_str(), today) {
        Some(w) => w,
        None => {
            return out;
        },
    };
    let want = chars_of(name.as_str());
    let mut k: usize = 0;
    let mut grows = false;
    while k < lists.len()
        invariant
            out@.len() == 0,
            k <= lists@.len(),
            nv.len() == lists@.len(),
            !(input.purpose is Edit),
            crate::live::list_word(input.text@, today) == Some(name@),
            nv == crate::live::names_view(lists@),
            want@ == name@,
            crate::live::first_named(nv, name@, 0) == crate::live::first_named(nv, name@, k as int),
            grows == exists|j: int| 0 <= j < k && name@.len() <= nv[j].len() && #[trigger] nv[j].take(name@.len() as int) == name@,
        decreases lists@.len() - k,
    {
        assert(nv[k as int] == lists@[k as int]@);
        if crate::live::names_list(name.as_str(), lists[k].as_str()) {
            let mut text = string_from(g.arrow());
            push_str(&mut text, " ");
            push_str(&mut text, lists[k].as_str());
            push_piece(&mut out, text, Ink { fg: Some(th.accent), bold: false });
            assert(crate::live::first_named(nv, name@, k as int) == Some(k as int));
            assert(!(input.purpose is Edit));
            assert(crate::live::list_word(input.text@, today) == Some(name@));
            assert(pieces(out@) =~= address_pieces(*input, nv, today, g, th));
            return out;
        }
        let ghost before = grows;
        if starts_with_chars(&chars_of(lists[k].as_str()), &want) {
            grows = true;
        }
        assert(grows == exists|j: int| 0 <= j < k + 1 && name@.len() <= nv[j].len() && #[trigger] nv[j].take(name@.len() as int) == name@) by {
            if grows && !before {
                assert(name@.len() <= nv[k as int].len() && nv[k as int].take(name@.len() as int) == name@);
            }
        }
        k += 1;
    }
    assert(crate::live::first_named(nv, name@, k as int) is None);
    assert(!(input.purpose is Edit));
    assert(crate::live::list_word(input.text@, today) == Some(name@));
    assert(grows == becoming(nv, name@));
    if !grows {
        let mut text = string_from("no list ");
        push_str(&mut text, name.as_str());
        push_str(&mut text, ".md");
        push_piece(&mut out, text, Ink { fg: Some(th.overdue), bold: false });
    }
    assert(pieces(out@) =~= address_pieces(*input, nv, today, g, th));
    out
}

pub fn preview_line(
    input: &Input,
    parsed: &Task,
    lands: Option<Date>,
    lists: &[String],
    today: Date,
    glyphs: Glyphs,
    theme: Theme,
) -> (r: Vec<Piece>)
    requires
        today.wf(),
        parsed.due matches Some(d) ==> d.date.wf(),
        lands matches Some(d) ==> d.wf(),
    ensures
        pieces(r@) == preview_pieces(*input, *parsed, lands, crate::live::names_view(lists@), today, glyphs, theme),
{
    let ghost names = crate::live::names_view(lists@);
    let several = lists.len() > 1;
    let dim = Ink { fg: Some(theme.dim), bold: false };
    let plain = Ink { fg: Some(theme.foreground), bold: false };
    let mut out: Vec<Piece> = Vec::new();
    push_piece(&mut out, spaces_string(6), dim);
    match &input.field {
        Some(f) => {
            let cells = f.cells();
            let hot = Ink { fg: Some(theme.accent), bold: true };
            let mut k: usize = 0;
            while k < 3
                invariant
                    k <= 3,
                    input.field == Some(*f),
                    plain == ink_of(theme.foreground),
                    hot == bold_of(theme.accent),
                    dim == ink_of(theme.dim),
                    pieces(out@) == seq![(spaces(6), dim)] + cells_pieces(*f, theme).take(k as int),
                    cells@[0].0 == DatePart::Day,
                    cells@[1].0 == DatePart::Month,
                    cells@[2].0 == DatePart::Year,
                    cells@[0].1@ == cells_pieces(*f, theme)[0].0,
                    cells@[1].1@ == cells_pieces(*f, theme)[1].0,
                    cells@[2].1@ == cells_pieces(*f, theme)[2].0,
                decreases 3 - k,
            {
                let ink = if cells[k].0 == f.part { hot } else { plain };
                let ghost before = pieces(out@);
                proof {
                    let cp = cells_pieces(*f, theme);
                    if k == 0 {
                        assert(cp[0] == (cells@[0].1@, ink));
                    } else if k == 1 {
                        assert(cp[1] == (cells@[1].1@, ink));
                    } else {
                        assert(cp[2] == (cells@[2].1@, ink));
                    }
                }
                push_piece(&mut out, string_from(cells[k].1.as_str()), ink);
                assert(cells_pieces(*f, theme).take(k + 1) =~= cells_pieces(*f, theme).take(k as int).push(cells_pieces(*f, theme)[k as int]));
                assert(pieces(out@) =~= seq![(spaces(6), dim)] + cells_pieces(*f, theme).take(k + 1));
                k += 1;
            }
            assert(cells_pieces(*f, theme).take(3) =~= cells_pieces(*f, theme));
            let mut tail_s = String::new();
            push_char(&mut tail_s, ' ');
            push_str(&mut tail_s, glyphs.arrows());
            push_piece(&mut out, tail_s, dim);
            assert(pieces(out@) =~= preview_pieces(*input, *parsed, lands, names, today, glyphs, theme));
            return out;
        },
        None => {},
    }
    match &input.purpose {
        Purpose::Postpone(_) => {
            match lands {
                Some(d) => {
                    push_piece(&mut out, crate::text::relative(Due::new(d), today), Ink { fg: Some(theme.accent), bold: false });
                },
                None => {
                    push_piece(&mut out, string_from("how long?  2   3d   1w   fri"), dim);
                },
            }
            assert(pieces(out@) =~= preview_pieces(*input, *parsed, lands, names, today, glyphs, theme));
            return out;
        },
        _ => {},
    }
    if crate::strs::trimmed(&chars_of(input.text.as_str())).len() == 0 {
        let mut hint = string_from("@thu #home !high");
        if several {
            push_str(&mut hint, " $list");
        }
        proof {
            reveal_strlit("@thu #home !high");
            reveal_strlit(" $list");
            reveal_strlit("@thu #home !high $list");
        }
        assert(hint@ =~= empty_hint(several));
        push_piece(&mut out, hint, dim);
        assert(pieces(out@) =~= preview_pieces(*input, *parsed, lands, names, today, glyphs, theme));
        return out;
    }
    let fp = crate::text::field_parts(parsed, today);
    let ghost gfp = crate::text::field_parts_of(*parsed, today);
    let said = address(input, lists, today, glyphs, theme);
    let ghost a = pieces(said@);
    let addressed = said.len() > 0;
    append_pieces(&mut out, said);
    if addressed && fp.len() > 0 {
        push_piece(&mut out, ruled_string(glyphs), Ink { fg: Some(theme.border), bold: false });
    }
    let ghost head = pieces(out@);
    assert(head =~= seq![(spaces(6), dim)] + a + (if a.len() > 0 && gfp.len() > 0 {
        seq![(ruled_text(glyphs), ink_of(theme.border))]
    } else {
        Seq::<(Seq<char>, Ink)>::empty()
    }));
    let mut k: usize = 0;
    assert(head + field_run(gfp, 0, parsed.priority, plain, glyphs, theme) =~= pieces(out@) + field_run(gfp, 0, parsed.priority, plain, glyphs, theme));
    while k < fp.len()
        invariant
            k <= fp@.len(),
            crate::text::part_views(fp@) == gfp,
            plain == ink_of(theme.foreground),
            dim == ink_of(theme.dim),
            head + field_run(gfp, 0, parsed.priority, plain, glyphs, theme)
                == pieces(out@) + field_run(gfp, k as int, parsed.priority, plain, glyphs, theme),
        decreases fp@.len() - k,
    {
        let ghost before = pieces(out@);
        if k > 0 {
            push_piece(&mut out, ruled_string(glyphs), Ink { fg: Some(theme.border), bold: false });
        }
        assert(gfp[k as int] == (fp@[k as int].0, fp@[k as int].1@));
        push_piece(&mut out, string_from(fp[k].1.as_str()), paint(fp[k].0, parsed.priority, plain, theme));
        assert(before + field_run(gfp, k as int, parsed.priority, plain, glyphs, theme) =~= pieces(out@)
            + field_run(gfp, k + 1, parsed.priority, plain, glyphs, theme));
        k += 1;
    }
    assert(field_run(gfp, k as int, parsed.priority, plain, glyphs, theme) =~= Seq::<(Seq<char>, Ink)>::empty());
    assert(pieces(out@) =~= preview_pieces(*input, *parsed, lands, names, today, glyphs, theme));
    out
}

/// The input box's three rows: the typed line, a rule, and what the line
/// will become; and the column the caret is drawn in. `lists` are the open
/// lists, by file name: what a `$list` in the line is checked against.
pub fn input_lines(
    input: &Input,
    width: usize,
    lists: &[String],
    today: Date,
    glyphs: Glyphs,
    theme: Theme,
) -> (r: (Vec<Piece>, Piece, Vec<Piece>, usize))
    requires
        input.wf(),
        today.wf(),
    ensures
        ({
            let moving = input.purpose is Postpone;
            let lands = moving && later_days(input.text@, today) is Some;
            &&& pieces(r.0@) == field_pieces(
                *input,
                width as nat,
                today,
                glyphs,
                theme,
                captured(input.text@, today).priority,
                lands,
            )
            &&& r.1@ == (repeated(seq![rule_char(glyphs)], width as nat), ink_of(theme.border))
            &&& r.3 == caret_column(input.text@, input.caret_at(), width as nat, input.purpose, glyphs)
            &&& exists|t: Task, d: Option<Date>|
                #![trigger is_capture(t, input.text@, today), preview_pieces(*input, t, d, crate::live::names_view(lists@), today, glyphs, theme)]
                {
                    &&& is_capture(t, input.text@, today)
                    &&& (d is Some <==> lands)
                    &&& (d matches Some(x) ==> x.wf() && x.number() == later_days(input.text@, today)->0)
                    &&& pieces(r.2@) == preview_pieces(*input, t, d, crate::live::names_view(lists@), today, glyphs, theme)
                }
        }),
{
    let parsed = crate::capture::capture(input.text.as_str(), today);
    let lands = match &input.purpose {
        Purpose::Postpone(_) => crate::capture::later(input.text.as_str(), today),
        _ => None,
    };
    let (field, col) = field_line(input, width, today, glyphs, theme, parsed.priority, lands.is_some());
    let mut rule = String::new();
    push_char_times(&mut rule, glyphs.rule(), width);
    let preview = preview_line(input, &parsed, lands, lists, today, glyphs, theme);
    assert(pieces(preview@) == preview_pieces(*input, parsed, lands, crate::live::names_view(lists@), today, glyphs, theme));
    (field, piece(rule, Ink { fg: Some(theme.border), bold: false }), preview, col)
}


/// What an empty list shows, laid out: one piece per row, top to bottom;
/// whether the two-line welcome leads it (its second and third rows are
/// then centred); and the width of the example box drawn under the rows,
/// when the pane has room for it.
pub struct EmptyScreen {
    pub rows: Vec<Piece>,
    pub welcome: bool,
    pub example: Option<u16>,
}

/// The welcome only where there is height to spare.
pub open spec fn has_welcome(height: int) -> bool {
    height >= 14
}

/// Room for the five rows of the example box under the text.
pub open spec fn has_example_room(width: int, height: int) -> bool {
    height >= 11 && width >= 34
}

/// The example box: 48 columns, or the pane less a margin of two each side.
pub open spec fn example_width(width: int) -> int {
    if sub0(width, 4) < 48 {
        sub0(width, 4) as int
    } else {
        48
    }
}

pub open spec fn empty_rows(width: int, height: int, path: Seq<char>, g: Glyphs, th: Theme) -> Seq<(Seq<char>, Ink)> {
    let dim = ink_of(th.dim);
    let blank = (Seq::<char>::empty(), plain_ink());
    let welcome = if has_welcome(height) {
        seq![blank, ("ratodo"@, bold_of(th.accent)), ("a todo list that is still just a file"@, dim)]
    } else {
        Seq::<(Seq<char>, Ink)>::empty()
    };
    let body = seq![
        blank,
        ("  Nothing here yet."@, ink_of(th.foreground)),
        blank,
        ("  a          add your first task"@, dim),
        ("  e          open "@ + shorten_text(path, sub0(width, 31), g) + " in $EDITOR"@, dim),
        blank,
    ];
    let tried = if has_example_room(width, height) {
        Seq::<(Seq<char>, Ink)>::empty()
    } else {
        seq![("  Try:  a  then  buy milk @tomorrow #home"@, ink_of(th.accent))]
    };
    welcome + body + tried
}

/// The screen of a list with nothing in it: a welcome where the pane is
/// tall, what `a` and `e` do (the path shortened to fit), and the example,
/// as a box when there is room for one and as a line of text otherwise.
pub fn empty_lines(width: u16, height: u16, path: &str, glyphs: Glyphs, theme: Theme) -> (r: EmptyScreen)
    ensures
        pieces(r.rows@) == empty_rows(width as int, height as int, path@, glyphs, theme),
        r.welcome == has_welcome(height as int),
        r.example == if has_example_room(width as int, height as int) {
            Some(example_width(width as int) as u16)
        } else {
            None::<u16>
        },
{
    let dim = Ink { fg: Some(theme.dim), bold: false };
    let plain = Ink { fg: None, bold: false };
    let mut rows: Vec<Piece> = Vec::new();
    let welcome = height >= 14;
    if welcome {
        push_piece(&mut rows, String::new(), plain);
        push_piece(&mut rows, string_from("ratodo"), Ink { fg: Some(theme.accent), bold: true });
        push_piece(&mut rows, string_from("a todo list that is still just a file"), dim);
    }
    let ghost head = pieces(rows@);
    push_piece(&mut rows, String::new(), plain);
    push_piece(&mut rows, string_from("  Nothing here yet."), Ink { fg: Some(theme.foreground), bold: false });
    push_piece(&mut rows, String::new(), plain);
    push_piece(&mut rows, string_from("  a          add your first task"), dim);
    let limit: usize = if width > 31 { (width - 31) as usize } else { 0 };
    let mut editor = string_from("  e          open ");
    let short = shorten(path, limit, glyphs);
    push_str(&mut editor, short.as_str());
    push_str(&mut editor, " in $EDITOR");
    push_piece(&mut rows, editor, dim);
    push_piece(&mut rows, String::new(), plain);
    let room = height >= 11 && width >= 34;
    let ghost body = pieces(rows@);
    if !room {
        push_piece(&mut rows, string_from("  Try:  a  then  buy milk @tomorrow #home"), Ink { fg: Some(theme.accent), bold: false });
    }
    let example = if room {
        let less4: u16 = if width > 4 { width - 4 } else { 0 };
        Some(if less4 < 48 { less4 } else { 48 })
    } else {
        None
    };
    assert(pieces(rows@) =~= empty_rows(width as int, height as int, path@, glyphs, theme));
    EmptyScreen { rows, welcome, example }
}


/// The rows between the list and the bottom line when the band is shown.
pub const FOOTER: u16 = 2;

/// The columns a group's box keeps clear of the frame.
pub const BOX_MARGIN: usize = 2;

/// How a pane of `width` by `height` is shared out: the bottom line, the
/// frame, the band of numbers, the footer, and the width a row has.
pub struct Panes {
    /// Rows held back for the bottom line: one, but never the whole pane.
    pub reserved: u16,
    pub size: Size,
    pub band: Band,
    /// Whether the list has a frame round it.
    pub framed: bool,
    /// The list's first row, counted from the top of the pane.
    pub list_top: u16,
    pub list_height: u16,
    pub list_width: u16,
    /// The columns a task row is laid out in.
    pub row_width: usize,
}

pub open spec fn panes_reserved(height: int) -> int {
    if height >= 2 {
        1
    } else {
        0
    }
}

/// What the frame leaves of `n` rows or columns: one off each side.
pub open spec fn inside(framed: bool, n: int) -> int {
    if framed {
        sub0(n, 2) as int
    } else {
        n
    }
}

pub open spec fn cursor_text(g: Glyphs) -> Seq<char> {
    if g == Glyphs::Unicode {
        "\u{258c} "@
    } else {
        "> "@
    }
}

/// The pane of `width` by `height` shared out.
pub fn panes(width: u16, height: u16, glyphs: Glyphs) -> (r: Panes)
    ensures
        r.reserved == panes_reserved(height as int),
        r.size == size_for(width as int),
        r.band == band_for(height as int, r.size),
        r.framed == (r.size != Size::Bare),
        r.list_top == (if r.framed { 1int } else { 0int }) + band_rows(r.band),
        r.list_height == sub0(
            inside(r.framed, height - panes_reserved(height as int)),
            band_rows(r.band) + if r.band == Band::Gone { 0 } else { FOOTER as int },
        ),
        r.list_width == inside(r.framed, width as int),
        r.row_width == if r.framed {
            sub0(sub0(sub0(r.list_width as int, display_width(cursor_text(glyphs)) as int) as int, BOX_MARGIN as int) as int, 2 + INSET)
        } else {
            sub0(r.list_width as int, display_width(cursor_text(glyphs)) as int)
        },
{
    let reserved: u16 = if height >= 2 { 1 } else { 0 };
    let area_height = height - reserved;
    let size = Size::of(width);
    let band = Band::of(height, size);
    let framed = size != Size::Bare;
    let rows = band.rows();
    let frame_height: u16 = if framed { if area_height > 2 { area_height - 2 } else { 0 } } else { area_height };
    let list_width: u16 = if framed { if width > 2 { width - 2 } else { 0 } } else { width };
    let spent: u16 = rows + if band == Band::Gone { 0 } else { FOOTER };
    let list_height: u16 = if frame_height > spent { frame_height - spent } else { 0 };
    let list_top: u16 = (if framed { 1 } else { 0 }) + rows;
    let cw = columns(glyphs.cursor());
    let bare: usize = if (list_width as usize) > cw { list_width as usize - cw } else { 0 };
    let row_width: usize = if framed {
        let boxed: usize = if bare > BOX_MARGIN { bare - BOX_MARGIN } else { 0 };
        if boxed > 2 + INSET { boxed - (2 + INSET) } else { 0 }
    } else {
        bare
    };
    Panes { reserved, size, band, framed, list_top, list_height, list_width, row_width }
}


/// The bottom line while a box or the form is open: what `⏎` and `esc` do
/// there, and, on a wide pane with the one-line box open, that `tab` opens
/// the date field.
pub open spec fn open_hint_text(form: bool, field_open: bool, size: Size, g: Glyphs) -> Seq<char> {
    let enter = crate::ui::enter_text(g);
    if field_open {
        " "@ + enter + " date   esc back"@
    } else if form {
        " "@ + enter + " create   esc cancel"@
    } else if size == Size::Wide {
        " "@ + enter + " save   esc cancel   tab date"@
    } else {
        " "@ + enter + " save   esc cancel"@
    }
}

pub fn open_hint(form: bool, field_open: bool, size: Size, glyphs: Glyphs, theme: Theme) -> (r: Piece)
    ensures
        r@ == (open_hint_text(form, field_open, size, glyphs), ink_of(theme.dim)),
{
    let mut s = string_from(" ");
    push_str(&mut s, glyphs.enter());
    if field_open {
        push_str(&mut s, " date   esc back");
    } else if form {
        push_str(&mut s, " create   esc cancel");
    } else if size == Size::Wide {
        push_str(&mut s, " save   esc cancel   tab date");
    } else {
        push_str(&mut s, " save   esc cancel");
    }
    piece(s, Ink { fg: Some(theme.dim), bold: false })
}

/// The one-line box over the list: seventy columns, or the pane less a
/// margin of two each side; five rows, or the pane's height. Under three
/// rows it is not drawn, and under five the rule under the field goes.
pub struct BoxShape {
    pub width: u16,
    pub height: u16,
    pub ruled: bool,
}

pub fn input_box_shape(width: u16, height: u16) -> (r: Option<BoxShape>)
    ensures
        match r {
            None => height < 3,
            Some(b) => {
                &&& height >= 3
                &&& b.width == (if sub0(width as int, 4) < 70 { sub0(width as int, 4) as int } else { 70 })
                &&& b.height == (if height < 5 { height as int } else { 5 })
                &&& b.ruled == (height >= 5)
            },
        },
{
    let tall: u16 = if height < 5 { height } else { 5 };
    if tall < 3 {
        return None;
    }
    let less: u16 = if width > 4 { width - 4 } else { 0 };
    Some(BoxShape { width: if less < 70 { less } else { 70 }, height: tall, ruled: tall >= 5 })
}


/// Every character is ASCII.
pub open spec fn ascii_text(s: Seq<char>) -> bool {
    forall|i: int| 0 <= i < s.len() ==> (#[trigger] s[i] as u32) < 128
}

/// Under a C locale nothing the tool draws of its own is outside ASCII:
/// every glyph of the ASCII set, the box corners, rules, arrows, marks,
/// bars and punctuation, is ASCII.
pub proof fn law_the_ascii_glyphs_are_ascii()
    ensures
        ascii_text(crate::ui::enter_text(Glyphs::Ascii)),
        ascii_text(crate::ui::ellipsis_text(Glyphs::Ascii)),
        ascii_text(crate::ui::tick_text(Glyphs::Ascii)),
        ascii_text(crate::ui::block_text(Glyphs::Ascii).0),
        ascii_text(crate::ui::block_text(Glyphs::Ascii).1),
        ascii_text(crate::ui::punctuation_text(Glyphs::Ascii).0),
        ascii_text(crate::ui::punctuation_text(Glyphs::Ascii).1),
        ascii_text(divider_text(Glyphs::Ascii)),
        ascii_text(ruled_text(Glyphs::Ascii)),
        ascii_text(arrows_text(Glyphs::Ascii)),
        ascii_text(arrow_text(Glyphs::Ascii)),
        ascii_text(cursor_text(Glyphs::Ascii)),
        ascii_text(field_glyph(Glyphs::Ascii)),
        (rule_char(Glyphs::Ascii) as u32) < 128,
        forall|i: int| ascii_text(#[trigger] crate::form::corner_text(Glyphs::Ascii, i)),
{
    reveal_strlit("ret");
    reveal_strlit("...");
    reveal_strlit("x");
    reveal_strlit("#");
    reveal_strlit(".");
    reveal_strlit("-");
    reveal_strlit("/");
    reveal_strlit("|");
    reveal_strlit("down up");
    reveal_strlit("->");
    reveal_strlit("> ");
    reveal_strlit("+");
    assert(ascii_text(ruled_text(Glyphs::Ascii))) by {
        assert(ruled_text(Glyphs::Ascii) =~= seq![' ', '|', ' ']);
    }
}

} // verus!
