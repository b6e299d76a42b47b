//! Why `ratodo theme dump > theme.conf` is safe: the file a theme dumps
//! reads back as that same theme, with nothing to warn about.

use vstd::prelude::*;

use crate::capture::{all_digits, u64_of};
use crate::ics::{hex_char, hex_text};
use crate::parse::{ascii_lower, lower_ascii};
use crate::strs::{byte_len, is_space, trim, trim_end, trim_start, width};
use crate::theme::{base_of, dump_header, dump_line, dump_lines, dump_text, entries_of, keys_of, lemma_role_names_differ, mocha_theme, parsed_of, role, role_of, text_lines, with_role, Theme, role_name, nl_split, lemma_nl_split_len, 
    all_hex, ansi_name, ansi_of, colour_of, colour_text, hex_digit, hex_value, radix16, rgb_of,
    Colour,
};

verus! {

/// A colour `dump` writes in a form the parser reads: every one but a
/// palette index past the sixteen ANSI colours.
pub open spec fn dumpable_colour(c: Colour) -> bool {
    c matches Colour::Indexed(i) ==> i < 16
}

proof fn lemma_hex_char(d: nat)
    requires
        d < 16,
    ensures
        hex_digit(hex_char(d)) == Some(d as int),
        (hex_char(d) as u32) < 0x80,
        !is_space(hex_char(d)),
        hex_char(d) != '+',
        hex_char(d) != '#',
        width(hex_char(d)) == 1,
{
}

/// Two hexadecimal digits read back as the number they were written from.
proof fn lemma_hex2(x: nat)
    requires
        x < 256,
    ensures
        hex_text(x, 2).len() == 2,
        hex_text(x, 2) == seq![hex_char(x / 16), hex_char(x % 16)],
        hex_value(hex_text(x, 2)) == x,
{
    lemma_hex_char(x / 16);
    lemma_hex_char(x % 16);
    reveal_with_fuel(hex_text, 3);
    reveal_with_fuel(hex_value, 3);
    assert(hex_text(x / 16, 1) =~= seq![hex_char(x / 16 % 16)]);
    assert(hex_text(x, 2) =~= seq![hex_char(x / 16 % 16), hex_char(x % 16)]);
    assert(x / 16 % 16 == x / 16);
    let s = hex_text(x, 2);
    assert(s.drop_last() =~= seq![hex_char(x / 16)]);
    assert(s.drop_last().drop_last() =~= Seq::<char>::empty());
}

/// A space, a `+` or a `#` is none of the characters a colour is written in.
proof fn lemma_trim_plain(s: Seq<char>)
    requires
        s.len() > 0,
        !is_space(s[0]),
        !is_space(s.last()),
    ensures
        trim(s) == s,
{
}

proof fn lemma_ascii_bytes(s: Seq<char>)
    requires
        forall|i: int| 0 <= i < s.len() ==> width(#[trigger] s[i]) == 1,
    ensures
        byte_len(s) == s.len(),
    decreases s.len(),
{
    if s.len() > 0 {
        assert forall|i: int| 0 <= i < s.drop_last().len() implies width(#[trigger] s.drop_last()[i]) == 1 by {
            assert(s.drop_last()[i] == s[i]);
        }
        lemma_ascii_bytes(s.drop_last());
        assert(width(s[s.len() - 1]) == 1);
    }
}

/// `#rrggbb` reads back as the colour.
proof fn lemma_rgb_back(r: u8, g: u8, b: u8)
    ensures
        colour_of(colour_text(Colour::Rgb(r, g, b))) == Some(Colour::Rgb(r, g, b)),
{
    let hr = hex_text(r as nat, 2);
    let hg = hex_text(g as nat, 2);
    let hb = hex_text(b as nat, 2);
    lemma_hex2(r as nat);
    lemma_hex2(g as nat);
    lemma_hex2(b as nat);
    lemma_hex_char(r as nat / 16);
    lemma_hex_char(r as nat % 16);
    lemma_hex_char(g as nat / 16);
    lemma_hex_char(g as nat % 16);
    lemma_hex_char(b as nat / 16);
    lemma_hex_char(b as nat % 16);
    let t = seq!['#'] + hr + hg + hb;
    assert(colour_text(Colour::Rgb(r, g, b)) == t);
    let hex = hr + hg + hb;
    assert(t.len() == 7);
    assert(t.last() == hex_char(b as nat % 16));
    assert(t[0] == '#');
    assert(!is_space('#'));
    lemma_trim_plain(t);
    assert(lower_ascii(t)[0] == '#');
    assert(lower_ascii(t) != "none"@) by {
        reveal_strlit("none");
    }
    assert(lower_ascii(t) != "default"@) by {
        reveal_strlit("default");
    }
    assert(t.drop_first() =~= hex);
    assert forall|i: int| 0 <= i < hex.len() implies width(#[trigger] hex[i]) == 1 && hex_digit(hex[i]) is Some && hex[i] != '+' by {
        if i == 0 {
            assert(hex[i] == hex_char(r as nat / 16));
        } else if i == 1 {
            assert(hex[i] == hex_char(r as nat % 16));
        } else if i == 2 {
            assert(hex[i] == hex_char(g as nat / 16));
        } else if i == 3 {
            assert(hex[i] == hex_char(g as nat % 16));
        } else if i == 4 {
            assert(hex[i] == hex_char(b as nat / 16));
        } else {
            assert(hex[i] == hex_char(b as nat % 16));
        }
    }
    lemma_ascii_bytes(hex);
    assert(byte_len(hex) == 6);
    assert(all_hex(hex));
    let d = |i: int| hex_digit(hex[i])->0;
    assert(hex.drop_last() =~= hr + hg + seq![hb[0]]);
    reveal_with_fuel(hex_value, 7);
    assert(hex_value(hex) == ((((d(0) * 16 + d(1)) * 16 + d(2)) * 16 + d(3)) * 16 + d(4)) * 16 + d(5)) by {
        assert(hex.take(0) =~= Seq::<char>::empty());
        assert(hex.drop_last().drop_last() =~= hex.take(4));
        assert(hex.take(4).drop_last() =~= hex.take(3));
        assert(hex.take(3).drop_last() =~= hex.take(2));
        assert(hex.take(2).drop_last() =~= hex.take(1));
        assert(hex.take(1).drop_last() =~= hex.take(0));
    }
    assert(d(0) * 16 + d(1) == r);
    assert(d(2) * 16 + d(3) == g);
    assert(d(4) * 16 + d(5) == b);
    let v = hex_value(hex);
    assert(v == r * 65536 + g * 256 + b);
    assert(v <= u32::MAX);
    assert(radix16(hex) == Some(v));
    assert(rgb_of(v) == Colour::Rgb(r, g, b)) by (nonlinear_arith)
        requires
            v == r * 65536 + g * 256 + b,
            r < 256,
            g < 256,
            b < 256,
    {
        assert(v / 65536 == r);
        assert(v / 256 == r * 256 + g);
        assert(v / 256 % 256 == g);
        assert(v % 256 == b);
    }
}


/// What the eight ANSI names have in common, and that each reads back as
/// its index.
proof fn lemma_ansi_name(j: int)
    requires
        0 <= j < 8,
    ensures
        3 <= ansi_name(j).len() <= 7,
        'a' <= ansi_name(j)[0] <= 'z',
        ansi_name(j)[0] != 'n',
        ansi_name(j)[0] != 'd',
        ansi_name(j).len() == 7 ==> ansi_name(j)[0] != 'b',
        'a' <= ansi_name(j).last() <= 'z',
        ansi_of(ansi_name(j)) == Some(j),
{
    reveal_strlit("black");
    reveal_strlit("red");
    reveal_strlit("green");
    reveal_strlit("yellow");
    reveal_strlit("blue");
    reveal_strlit("magenta");
    reveal_strlit("cyan");
    reveal_strlit("white");
    let n = ansi_name(j);
    assert(n == "black"@ ==> n.len() == 5 && n[0] == 'b' && n[2] == 'a');
    assert(n == "red"@ ==> n.len() == 3);
    assert(n == "green"@ ==> n.len() == 5 && n[0] == 'g');
    assert(n == "yellow"@ ==> n.len() == 6 && n[0] == 'y');
    assert(n == "blue"@ ==> n.len() == 4);
    assert(n == "magenta"@ ==> n.len() == 7);
    assert(n == "cyan"@ ==> n.len() == 4 && n[0] == 'c');
    assert(n == "white"@ ==> n.len() == 5 && n[0] == 'w');
}

proof fn lemma_letter_not_space(c: char)
    requires
        'a' <= c <= 'z',
    ensures
        !is_space(c),
        ascii_lower(c) == c,
        !('0' <= c <= '9'),
{
}

/// A palette index under sixteen reads back from its name.
proof fn lemma_index_back(i: u8)
    requires
        i < 16,
    ensures
        colour_of(colour_text(Colour::Indexed(i))) == Some(Colour::Indexed(i)),
{
    reveal_strlit("none");
    reveal_strlit("default");
    reveal_strlit("bright_");
    let j: int = if i < 8 { i as int } else { i - 8 };
    lemma_ansi_name(j);
    let n = ansi_name(j);
    lemma_letter_not_space(n[0]);
    lemma_letter_not_space(n.last());
    let t = colour_text(Colour::Indexed(i));
    if i < 8 {
        assert(t == n);
        lemma_trim_plain(t);
        assert(lower_ascii(t)[0] == n[0]);
        assert(!all_digits(t));
        assert(u64_of(t) is None);
        assert(!(t.len() >= 7 && t.take(7) == "bright_"@)) by {
            if t.len() >= 7 {
                assert(t.take(7)[0] == n[0]);
            }
        }
    } else {
        assert(t == "bright_"@ + n);
        assert(t[0] == 'b');
        assert(t.last() == n.last());
        lemma_letter_not_space('b');
        lemma_trim_plain(t);
        assert(lower_ascii(t)[0] == 'b');
        assert(lower_ascii(t).len() > 7);
        assert(!all_digits(t));
        assert(u64_of(t) is None);
        assert(t.take(7) =~= "bright_"@);
        assert(t.skip(7) =~= n);
    }
}

/// Every colour `dump` writes reads back as itself.
pub proof fn lemma_colour_back(c: Colour)
    requires
        dumpable_colour(c),
    ensures
        colour_of(colour_text(c)) == Some(c),
{
    match c {
        Colour::Reset => {
            reveal_strlit("none");
            reveal_strlit("default");
            let t = colour_text(c);
            assert(t == seq!['n', 'o', 'n', 'e']);
            lemma_letter_not_space('n');
            lemma_letter_not_space('e');
            lemma_trim_plain(t);
            assert(lower_ascii(t) =~= t);
        },
        Colour::Rgb(r, g, b) => lemma_rgb_back(r, g, b),
        Colour::Indexed(i) => lemma_index_back(i),
    }
}


/// Text that does not hold a line feed.
pub open spec fn one_line(s: Seq<char>) -> bool {
    forall|i: int| 0 <= i < s.len() ==> s[i] != '\n'
}

/// Adding text with no line feed in it lengthens the last line.
proof fn lemma_nl_append(pre: Seq<char>, l: Seq<char>)
    requires
        one_line(l),
    ensures
        nl_split(pre + l) == nl_split(pre).update(
            nl_split(pre).len() - 1,
            nl_split(pre).last() + l,
        ),
        nl_split(pre + l).len() == nl_split(pre).len(),
    decreases l.len(),
{
    lemma_nl_split_len(pre);
    if l.len() == 0 {
        assert(pre + l =~= pre);
        assert(nl_split(pre).last() + l =~= nl_split(pre).last());
        assert(nl_split(pre).update(nl_split(pre).len() - 1, nl_split(pre).last()) =~= nl_split(pre));
    } else {
        let front = l.drop_last();
        assert(one_line(front)) by {
            assert forall|i: int| 0 <= i < front.len() implies front[i] != '\n' by {
                assert(front[i] == l[i]);
            }
        }
        lemma_nl_append(pre, front);
        assert((pre + l).drop_last() =~= pre + front);
        assert((pre + l).last() == l.last());
        assert(l.last() != '\n') by {
            assert(l[l.len() - 1] != '\n');
        }
        lemma_nl_split_len(pre + front);
        let p = nl_split(pre + front);
        assert(nl_split(pre + l) == p.update(p.len() - 1, p.last().push(l.last())));
        let n = nl_split(pre);
        assert(p.len() == n.len());
        assert(p.last() == p[n.len() - 1]);
        assert(p[n.len() - 1] == n.last() + front);
        assert(p.last().push(l.last()) =~= n.last() + l);
        assert(nl_split(pre + l) =~= nl_split(pre).update(
            nl_split(pre).len() - 1,
            nl_split(pre).last() + l,
        ));
    }
}

/// A line and its line feed: the last line gets the text, and a new empty
/// one starts.
proof fn lemma_nl_line(pre: Seq<char>, l: Seq<char>)
    requires
        one_line(l),
    ensures
        nl_split(pre + l + seq!['\n']) == nl_split(pre).update(
            nl_split(pre).len() - 1,
            nl_split(pre).last() + l,
        ).push(seq![]),
{
    lemma_nl_append(pre, l);
    assert((pre + l + seq!['\n']).drop_last() =~= pre + l);
}


/// The twelve role names: short lower-case words with nothing in them the
/// file format gives a meaning to, and none of them `theme`.
proof fn lemma_role_name(i: int)
    requires
        0 <= i < 12,
    ensures
        3 <= role_name(i).len() <= 10,
        'a' <= role_name(i)[0] <= 'z',
        'a' <= role_name(i).last() <= 'z',
        forall|k: int| 0 <= k < role_name(i).len() ==> #[trigger] role_name(i)[k] != '=' && role_name(i)[k] != '\n',
        role_name(i) != "theme"@,
{
    reveal_strlit("background");
    reveal_strlit("foreground");
    reveal_strlit("dim");
    reveal_strlit("border");
    reveal_strlit("selection");
    reveal_strlit("accent");
    reveal_strlit("overdue");
    reveal_strlit("today");
    reveal_strlit("done");
    reveal_strlit("done_text");
    reveal_strlit("tag");
    reveal_strlit("priority");
    reveal_strlit("theme");
    let n = role_name(i);
    assert(n == "theme"@ ==> n.len() == 5 && n[0] == 't' && n[1] == 'h');
}

/// What `dump` writes for a colour: one line's worth of text, starting and
/// ending with something other than white space.
proof fn lemma_colour_text_shape(c: Colour)
    requires
        dumpable_colour(c),
    ensures
        colour_text(c).len() > 0,
        !is_space(colour_text(c)[0]),
        !is_space(colour_text(c).last()),
        one_line(colour_text(c)),
{
    reveal_strlit("none");
    reveal_strlit("bright_");
    match c {
        Colour::Reset => {
            assert(colour_text(c) == seq!['n', 'o', 'n', 'e']);
        },
        Colour::Rgb(r, g, b) => {
            lemma_hex2(r as nat);
            lemma_hex2(g as nat);
            lemma_hex2(b as nat);
            lemma_hex_char(r as nat / 16);
            lemma_hex_char(r as nat % 16);
            lemma_hex_char(g as nat / 16);
            lemma_hex_char(g as nat % 16);
            lemma_hex_char(b as nat / 16);
            lemma_hex_char(b as nat % 16);
            let t = colour_text(c);
            assert(t =~= seq![
                '#',
                hex_char(r as nat / 16),
                hex_char(r as nat % 16),
                hex_char(g as nat / 16),
                hex_char(g as nat % 16),
                hex_char(b as nat / 16),
                hex_char(b as nat % 16),
            ]);
        },
        Colour::Indexed(i) => {
            let j: int = if i < 8 { i as int } else { i - 8 };
            lemma_ansi_name(j);
            lemma_ansi_letters(j);
            let n = ansi_name(j);
            lemma_letter_not_space(n[0]);
            lemma_letter_not_space(n.last());
            let t = colour_text(c);
            if i >= 8 {
                assert(t == "bright_"@ + n);
                assert(t[0] == 'b');
                assert(t.last() == n.last());
                assert forall|k: int| 0 <= k < t.len() implies t[k] != '\n' by {
                    if k >= 7 {
                        assert(t[k] == n[k - 7]);
                    }
                }
            }
        },
    }
}

proof fn lemma_ansi_letters(j: int)
    requires
        0 <= j < 8,
    ensures
        one_line(ansi_name(j)),
{
    reveal_strlit("black");
    reveal_strlit("red");
    reveal_strlit("green");
    reveal_strlit("yellow");
    reveal_strlit("blue");
    reveal_strlit("magenta");
    reveal_strlit("cyan");
    reveal_strlit("white");
}

/// The first place `o` stands in `t`, from `i` on, is `k` when it is there
/// and nowhere between.
proof fn lemma_first_at(t: Seq<char>, o: Seq<char>, i: int, k: int)
    requires
        0 <= i <= k,
        k + o.len() <= t.len(),
        t.subrange(k, k + o.len()) == o,
        forall|j: int| i <= j < k ==> #[trigger] t.subrange(j, j + o.len()) != o,
    ensures
        crate::ui::first_from(t, o, i) == Some(k),
    decreases k - i,
{
    if i < k {
        assert(t.subrange(i, i + o.len()) != o);
        lemma_first_at(t, o, i + 1, k);
    }
}

proof fn lemma_trim_end_spaces(x: Seq<char>, m: nat)
    ensures
        trim_end(x + spaces(m)) == trim_end(x),
    decreases m,
{
    if m > 0 {
        assert((x + spaces(m)).drop_last() =~= x + spaces((m - 1) as nat));
        assert((x + spaces(m)).last() == ' ');
        lemma_trim_end_spaces(x, (m - 1) as nat);
    } else {
        assert(x + spaces(0) =~= x);
    }
}

pub open spec fn spaces(n: nat) -> Seq<char> {
    crate::ui::repeated(seq![' '], n)
}

/// One role's line in a dump, without its line feed.
pub open spec fn body(i: int, c: Colour) -> Seq<char> {
    role_name(i) + spaces((11 - role_name(i).len()) as nat) + "= "@ + colour_text(c)
}

proof fn lemma_spaces(n: nat)
    ensures
        spaces(n).len() == n,
        forall|k: int| 0 <= k < n ==> #[trigger] spaces(n)[k] == ' ',
    decreases n,
{
    if n > 0 {
        lemma_spaces((n - 1) as nat);
        assert forall|k: int| 0 <= k < n implies #[trigger] spaces(n)[k] == ' ' by {
            if k < n - 1 {
                assert(spaces(n)[k] == spaces((n - 1) as nat)[k]);
            }
        }
    }
}

/// A role's line reads back as that role's name and that colour's text.
proof fn lemma_body(i: int, c: Colour)
    requires
        0 <= i < 12,
        dumpable_colour(c),
    ensures
        one_line(body(i, c)),
        trim(body(i, c)) == body(i, c),
        body(i, c).len() > 0,
        body(i, c)[0] != '#',
        crate::ui::first_from(body(i, c), seq!['='], 0) == Some(11int),
        trim(body(i, c).take(11)) == role_name(i),
        trim(body(i, c).skip(12)) == colour_text(c),
{
    reveal_strlit("= ");
    lemma_role_name(i);
    lemma_colour_text_shape(c);
    let n = role_name(i);
    let pad = (11 - n.len()) as nat;
    lemma_spaces(pad);
    let ct = colour_text(c);
    let b = body(i, c);
    lemma_letter_not_space(n[0]);
    lemma_letter_not_space(n.last());
    assert(b.len() == 13 + ct.len());
    assert(b[0] == n[0]);
    assert(b.last() == ct.last());
    assert forall|k: int| 0 <= k < b.len() implies b[k] != '\n' by {
        if k < n.len() {
            assert(b[k] == n[k]);
        } else if k < 11 {
            assert(b[k] == spaces(pad)[k - n.len()]);
        } else if k < 13 {
            assert(b[k] == "= "@[k - 11]);
        } else {
            assert(b[k] == ct[k - 13]);
        }
    }
    lemma_trim_plain(b);
    assert(b.take(11) =~= n + spaces(pad));
    lemma_trim_end_spaces(n, pad);
    assert(trim_start(n + spaces(pad)) == n + spaces(pad));
    assert(trim_end(n) == n);
    assert(b.skip(12) =~= seq![' '] + ct);
    assert((seq![' '] + ct).drop_first() =~= ct);
    assert(trim_start(ct) == ct);
    assert(trim_end(ct) == ct);
    assert(b.subrange(11, 12) =~= seq!['=']);
    assert forall|j: int| 0 <= j < 11 implies #[trigger] b.subrange(j, j + 1) != seq!['='] by {
        if j < n.len() {
            assert(b.subrange(j, j + 1)[0] == n[j]);
        } else {
            assert(b.subrange(j, j + 1)[0] == spaces(pad)[j - n.len()]);
        }
    }
    lemma_first_at(b, seq!['='], 0, 11);
}


/// The comment a dump opens with.
pub open spec fn header_line() -> Seq<char> {
    "# ratodo theme \u{2014} see docs/theming.md"@
}

/// Every colour of the theme is one `dump` writes in a readable form.
pub open spec fn dumpable(t: Theme) -> bool {
    forall|i: int| 0 <= i < 12 ==> dumpable_colour(#[trigger] role(t, i))
}

/// The lines of a dump: the comment, a blank line, and the first `k` roles.
pub open spec fn dump_rows(t: Theme, k: int) -> Seq<Seq<char>> {
    seq![header_line(), seq![]] + Seq::new(k as nat, |i: int| body(i, role(t, i)))
}

proof fn lemma_header()
    ensures
        dump_header() == header_line() + seq!['\n'] + seq!['\n'],
        one_line(header_line()),
        trim(header_line()) == header_line(),
        header_line().len() > 0,
        header_line()[0] == '#',
{
    reveal_strlit("# ratodo theme \u{2014} see docs/theming.md\n\n");
    reveal_strlit("# ratodo theme \u{2014} see docs/theming.md");
    assert(dump_header() =~= header_line() + seq!['\n'] + seq!['\n']);
    lemma_letter_not_space('d');
    assert(!is_space('#'));
    lemma_trim_plain(header_line());
}

proof fn lemma_dump_split(t: Theme, k: int)
    requires
        0 <= k <= 12,
        dumpable(t),
    ensures
        nl_split(dump_header() + dump_lines(t, k)) == dump_rows(t, k).push(seq![]),
    decreases k,
{
    lemma_header();
    if k == 0 {
        let h = header_line();
        assert(dump_header() + dump_lines(t, 0) =~= Seq::<char>::empty() + h + seq!['\n'] + seq![] + seq!['\n']);
        lemma_nl_line(Seq::<char>::empty(), h);
        assert(nl_split(Seq::<char>::empty() + h + seq!['\n']) =~= seq![h, seq![]]);
        lemma_nl_line(Seq::<char>::empty() + h + seq!['\n'], seq![]);
        assert(dump_rows(t, 0).push(seq![]) =~= seq![h, seq![], seq![]]);
    } else {
        lemma_dump_split(t, k - 1);
        let c = role(t, k - 1);
        assert(dumpable_colour(c));
        lemma_body(k - 1, c);
        let pre = dump_header() + dump_lines(t, k - 1);
        assert(dump_line(k - 1, c) =~= body(k - 1, c) + seq!['\n']);
        assert(dump_header() + dump_lines(t, k) =~= pre + body(k - 1, c) + seq!['\n']);
        lemma_nl_line(pre, body(k - 1, c));
        let before = dump_rows(t, k - 1).push(seq![]);
        assert(before.last() + body(k - 1, c) =~= body(k - 1, c));
        assert(before.update(before.len() - 1, body(k - 1, c)).push(seq![]) =~= dump_rows(t, k).push(seq![]));
    }
}

pub open spec fn dump_entries(t: Theme, k: int) -> Seq<(int, Seq<char>, Seq<char>)> {
    Seq::new(k as nat, |i: int| (i + 3, role_name(i), colour_text(role(t, i))))
}

proof fn lemma_dump_entries(t: Theme, k: int)
    requires
        0 <= k <= 12,
        dumpable(t),
    ensures
        entries_of(dump_rows(t, k)) == (dump_entries(t, k), Seq::<Seq<char>>::empty()),
    decreases k,
{
    lemma_header();
    if k == 0 {
        let rows = dump_rows(t, 0);
        assert(rows =~= seq![header_line(), seq![]]);
        assert(rows.drop_last() =~= seq![header_line()]);
        assert(seq![header_line()].drop_last() =~= Seq::<Seq<char>>::empty());
        assert(trim(Seq::<char>::empty()) == Seq::<char>::empty());
        assert(dump_entries(t, 0) =~= Seq::<(int, Seq<char>, Seq<char>)>::empty());
        assert(entries_of(Seq::<Seq<char>>::empty()) == (Seq::<(int, Seq<char>, Seq<char>)>::empty(), Seq::<Seq<char>>::empty()));
        assert(entries_of(seq![header_line()]) == (Seq::<(int, Seq<char>, Seq<char>)>::empty(), Seq::<Seq<char>>::empty()));
        assert(entries_of(rows) == entries_of(seq![header_line()]));
    } else {
        lemma_dump_entries(t, k - 1);
        let c = role(t, k - 1);
        assert(dumpable_colour(c));
        lemma_body(k - 1, c);
        let rows = dump_rows(t, k);
        assert(rows.drop_last() =~= dump_rows(t, k - 1));
        assert(rows.last() == body(k - 1, c));
        assert(dump_entries(t, k) =~= dump_entries(t, k - 1).push((k + 2, role_name(k - 1), colour_text(c))));
    }
}

proof fn lemma_dump_base(t: Theme, k: int)
    requires
        0 <= k <= 12,
    ensures
        base_of(dump_entries(t, k)) == (mocha_theme(), Seq::<Seq<char>>::empty()),
    decreases k,
{
    if k > 0 {
        lemma_dump_base(t, k - 1);
        lemma_role_name(k - 1);
        assert(dump_entries(t, k).drop_last() =~= dump_entries(t, k - 1));
    } else {
        assert(dump_entries(t, 0) =~= Seq::<(int, Seq<char>, Seq<char>)>::empty());
    }
}

/// The theme with its first `k` roles taken from `t` and the rest from
/// `base`, set in order.
pub open spec fn partial(t: Theme, base: Theme, k: int) -> Theme
    decreases k,
{
    if k <= 0 {
        base
    } else {
        with_role(partial(t, base, k - 1), k - 1, role(t, k - 1))
    }
}

proof fn lemma_role_of_name(i: int)
    requires
        0 <= i < 12,
    ensures
        role_of(role_name(i)) == Some(i),
{
    let k = role_name(i);
    assert(exists|j: int| 0 <= j < 12 && role_name(j) == k);
    let j = choose|j: int| 0 <= j < 12 && role_name(j) == k;
    if j != i {
        lemma_role_names_differ(i, j);
    }
}

proof fn lemma_dump_keys(t: Theme, base: Theme, k: int)
    requires
        0 <= k <= 12,
        dumpable(t),
    ensures
        keys_of(dump_entries(t, k), base) == (partial(t, base, k), Seq::<Seq<char>>::empty()),
    decreases k,
{
    if k > 0 {
        lemma_dump_keys(t, base, k - 1);
        lemma_role_name(k - 1);
        lemma_role_of_name(k - 1);
        let c = role(t, k - 1);
        assert(dumpable_colour(c));
        lemma_colour_back(c);
        assert(dump_entries(t, k).drop_last() =~= dump_entries(t, k - 1));
        assert(dump_entries(t, k).last() == (k + 2, role_name(k - 1), colour_text(c)));
    } else {
        assert(dump_entries(t, 0) =~= Seq::<(int, Seq<char>, Seq<char>)>::empty());
    }
}

proof fn lemma_partial_all(t: Theme, base: Theme)
    ensures
        partial(t, base, 12) == t,
{
    reveal_with_fuel(partial, 13);
}

/// `ratodo theme dump` writes a file that parses back to the theme it was
/// dumped from, with nothing to warn about, for every theme whose colours
/// are all ones the file can name: a palette index past fifteen is written
/// as its number, which the parser does not take.
pub proof fn law_a_dump_parses_back(t: Theme)
    requires
        dumpable(t),
    ensures
        parsed_of(dump_text(t)) == (t, Seq::<Seq<char>>::empty()),
{
    lemma_dump_split(t, 12);
    let p = nl_split(dump_text(t));
    assert(p.last() == Seq::<char>::empty());
    assert(p.drop_last() =~= dump_rows(t, 12));
    assert(text_lines(dump_text(t)) == dump_rows(t, 12));
    lemma_dump_entries(t, 12);
    lemma_dump_base(t, 12);
    lemma_dump_keys(t, mocha_theme(), 12);
    lemma_partial_all(t, mocha_theme());
    assert(Seq::<Seq<char>>::empty() + Seq::<Seq<char>>::empty() + Seq::<Seq<char>>::empty() =~= Seq::<Seq<char>>::empty());
}

} // verus!
