//! Colours, the built-in themes and the `theme.conf` parser.

use vstd::prelude::*;

use crate::capture::u64_of;
use crate::parse::{lower_ascii, lowered};
use crate::strs::{
    byte_count, byte_len, chars_of, digits, push_char, push_str, same_chars, slice_chars,
    string_of, trim, trimmed,
};

verus! {

/// A colour as the terminal is told it: its own default, a 24-bit colour,
/// or an entry of its palette.
#[derive(Debug, Clone, Copy, PartialEq, Eq, Structural)]
pub enum Colour {
    Reset,
    Rgb(u8, u8, u8),
    Indexed(u8),
}

/// Twelve roles, named after what they do rather than after any one
/// palette.
#[derive(Debug, Clone, Copy, PartialEq, Eq, Structural)]
pub struct Theme {
    pub background: Colour,
    pub foreground: Colour,
    pub dim: Colour,
    pub border: Colour,
    pub selection: Colour,
    pub accent: Colour,
    pub overdue: Colour,
    pub today: Colour,
    pub done: Colour,
    pub done_text: Colour,
    pub tag: Colour,
    pub priority: Colour,
}

/// The roles' names, in file order: the one list the parser, `dump` and
/// the unknown-key warning all read.
pub open spec fn role_name(i: int) -> Seq<char> {
    if i == 0 {
        "background"@
    } else if i == 1 {
        "foreground"@
    } else if i == 2 {
        "dim"@
    } else if i == 3 {
        "border"@
    } else if i == 4 {
        "selection"@
    } else if i == 5 {
        "accent"@
    } else if i == 6 {
        "overdue"@
    } else if i == 7 {
        "today"@
    } else if i == 8 {
        "done"@
    } else if i == 9 {
        "done_text"@
    } else if i == 10 {
        "tag"@
    } else {
        "priority"@
    }
}

pub open spec fn role(t: Theme, i: int) -> Colour {
    if i == 0 {
        t.background
    } else if i == 1 {
        t.foreground
    } else if i == 2 {
        t.dim
    } else if i == 3 {
        t.border
    } else if i == 4 {
        t.selection
    } else if i == 5 {
        t.accent
    } else if i == 6 {
        t.overdue
    } else if i == 7 {
        t.today
    } else if i == 8 {
        t.done
    } else if i == 9 {
        t.done_text
    } else if i == 10 {
        t.tag
    } else {
        t.priority
    }
}

pub open spec fn with_role(t: Theme, i: int, c: Colour) -> Theme {
    if i == 0 {
        Theme { background: c, ..t }
    } else if i == 1 {
        Theme { foreground: c, ..t }
    } else if i == 2 {
        Theme { dim: c, ..t }
    } else if i == 3 {
        Theme { border: c, ..t }
    } else if i == 4 {
        Theme { selection: c, ..t }
    } else if i == 5 {
        Theme { accent: c, ..t }
    } else if i == 6 {
        Theme { overdue: c, ..t }
    } else if i == 7 {
        Theme { today: c, ..t }
    } else if i == 8 {
        Theme { done: c, ..t }
    } else if i == 9 {
        Theme { done_text: c, ..t }
    } else if i == 10 {
        Theme { tag: c, ..t }
    } else {
        Theme { priority: c, ..t }
    }
}

/// Which role a key names, if any.
pub open spec fn role_of(key: Seq<char>) -> Option<int> {
    if exists|i: int| 0 <= i < 12 && role_name(i) == key {
        Some(choose|i: int| 0 <= i < 12 && role_name(i) == key)
    } else {
        None
    }
}

fn role_str(i: usize) -> (r: &'static str)
    requires
        i < 12,
    ensures
        r@ == role_name(i as int),
{
    if i == 0 {
        "background"
    } else if i == 1 {
        "foreground"
    } else if i == 2 {
        "dim"
    } else if i == 3 {
        "border"
    } else if i == 4 {
        "selection"
    } else if i == 5 {
        "accent"
    } else if i == 6 {
        "overdue"
    } else if i == 7 {
        "today"
    } else if i == 8 {
        "done"
    } else if i == 9 {
        "done_text"
    } else if i == 10 {
        "tag"
    } else {
        "priority"
    }
}

/// No two roles share a name.
pub proof fn lemma_role_names_differ(i: int, j: int)
    requires
        0 <= i < 12,
        0 <= j < 12,
        i != j,
    ensures
        role_name(i) != role_name(j),
{
    reveal_strlit("background");
    reveal_strlit("foreground");
    reveal_strlit("dim");
    reveal_strlit("border");
    reveal_strlit("selection");
    reveal_strlit("accent");
    reveal_strlit("overdue");
    reveal_strlit("today");
    reveal_strlit("done");
    reveal_strlit("done_text");
    reveal_strlit("tag");
    reveal_strlit("priority");
    if role_name(i) == role_name(j) {
        let a = role_name(i);
        let b = role_name(j);
        assert(a.len() == b.len());
        assert(a[0] == b[0]);
        assert(a[a.len() - 1] == b[b.len() - 1]);
        assert(a.len() > 1 ==> a[1] == b[1]);
    }
}

fn role_index(key: &str) -> (r: Option<usize>)
    ensures
        match role_of(key@) {
            Some(i) => r == Some(i as usize),
            None => r is None,
        },
{
    let k = chars_of(key);
    let mut i: usize = 0;
    while i < 12
        invariant
            i <= 12,
            k@ == key@,
            forall|j: int| 0 <= j < i ==> role_name(j) != key@,
        decreases 12 - i,
    {
        let name = chars_of(role_str(i));
        if same_chars(&k, &name) {
            proof {
                assert forall|j: int| 0 <= j < 12 && role_name(j) == key@ implies j == i by {
                    if j != i {
                        lemma_role_names_differ(i as int, j);
                    }
                }
            }
            return Some(i);
        }
        i += 1;
    }
    None
}

fn get_role(t: &Theme, i: usize) -> (r: Colour)
    requires
        i < 12,
    ensures
        r == role(*t, i as int),
{
    if i == 0 {
        t.background
    } else if i == 1 {
        t.foreground
    } else if i == 2 {
        t.dim
    } else if i == 3 {
        t.border
    } else if i == 4 {
        t.selection
    } else if i == 5 {
        t.accent
    } else if i == 6 {
        t.overdue
    } else if i == 7 {
        t.today
    } else if i == 8 {
        t.done
    } else if i == 9 {
        t.done_text
    } else if i == 10 {
        t.tag
    } else {
        t.priority
    }
}

fn set_role(t: &mut Theme, i: usize, c: Colour)
    requires
        i < 12,
    ensures
        *final(t) == with_role(*old(t), i as int, c),
{
    if i == 0 {
        t.background = c;
    } else if i == 1 {
        t.foreground = c;
    } else if i == 2 {
        t.dim = c;
    } else if i == 3 {
        t.border = c;
    } else if i == 4 {
        t.selection = c;
    } else if i == 5 {
        t.accent = c;
    } else if i == 6 {
        t.overdue = c;
    } else if i == 7 {
        t.today = c;
    } else if i == 8 {
        t.done = c;
    } else if i == 9 {
        t.done_text = c;
    } else if i == 10 {
        t.tag = c;
    } else {
        t.priority = c;
    }
}

pub open spec fn pair_views(v: Seq<(&str, Colour)>) -> Seq<(Seq<char>, Colour)> {
    v.map_values(|p: (&str, Colour)| (p.0@, p.1))
}

impl Theme {
    /// Every role in file order, for `ratodo theme dump`.
    pub fn pairs(self) -> (r: Vec<(&'static str, Colour)>)
        ensures
            r@.len() == 12,
            forall|i: int| 0 <= i < 12 ==> #[trigger] pair_views(r@)[i] == (role_name(i), role(self, i)),
    {
        let mut out: Vec<(&'static str, Colour)> = Vec::new();
        let mut i: usize = 0;
        while i < 12
            invariant
                i <= 12,
                out@.len() == i,
                forall|j: int| 0 <= j < i ==> #[trigger] pair_views(out@)[j] == (role_name(j), role(self, j)),
            decreases 12 - i,
        {
            let ghost before = out@;
            let name = role_str(i);
            let colour = get_role(&self, i);
            out.push((name, colour));
            assert forall|j: int| 0 <= j <= i implies #[trigger] pair_views(out@)[j] == (
            role_name(j),
            role(self, j),
            ) by {
                if j < i {
                    assert(out@[j] == before[j]);
                    assert(pair_views(before)[j] == (role_name(j), role(self, j)));
                } else {
                    assert(out@[j] == (name, colour));
                }
            }
            i += 1;
        }
        out
    }

    /// Sets the role `key` names; `false` when it names none.
    pub fn set(&mut self, key: &str, value: Colour) -> (r: bool)
        ensures
            r == role_of(key@) is Some,
            *final(self) == match role_of(key@) {
                Some(i) => with_role(*old(self), i, value),
                None => *old(self),
            },
    {
        match role_index(key) {
            Some(i) => {
                set_role(self, i, value);
                true
            },
            None => false,
        }
    }

    /// `NO_COLOR=1`: every role the terminal's own colour. The symbols carry
    /// the meaning on their own.
    pub fn plain() -> (r: Theme)
        ensures
            r == Theme::plain_theme(),
            forall|i: int| 0 <= i < 12 ==> #[trigger] role(r, i) == Colour::Reset,
    {
        Theme {
            background: Colour::Reset,
            foreground: Colour::Reset,
            dim: Colour::Reset,
            border: Colour::Reset,
            selection: Colour::Reset,
            accent: Colour::Reset,
            overdue: Colour::Reset,
            today: Colour::Reset,
            done: Colour::Reset,
            done_text: Colour::Reset,
            tag: Colour::Reset,
            priority: Colour::Reset,
        }
    }
}

/// `0xrrggbb` as a colour.
pub open spec fn rgb_of(hex: int) -> Colour {
    Colour::Rgb((hex / 65536 % 256) as u8, (hex / 256 % 256) as u8, (hex % 256) as u8)
}

pub fn rgb(hex: u32) -> (r: Colour)
    ensures
        r == rgb_of(hex as int),
{
    Colour::Rgb(((hex / 65536) % 256) as u8, ((hex / 256) % 256) as u8, (hex % 256) as u8)
}

/// The `catppuccin-mocha` theme.
pub open spec fn mocha_theme() -> Theme {
    Theme {
        background: Colour::Reset,
        foreground: rgb_of(0xcdd6f4),
        dim: rgb_of(0xa6adc8),
        border: rgb_of(0x6c7086),
        selection: rgb_of(0x313244),
        accent: rgb_of(0xcba6f7),
        overdue: rgb_of(0xf38ba8),
        today: rgb_of(0xfab387),
        done: rgb_of(0xa6e3a1),
        done_text: rgb_of(0x7f849c),
        tag: rgb_of(0x89b4fa),
        priority: rgb_of(0xf9e2af),
    }
}

pub fn mocha() -> (r: Theme)
    ensures
        r == mocha_theme(),
{
    Theme {
        background: Colour::Reset,
        foreground: rgb(0xcdd6f4),
        dim: rgb(0xa6adc8),
        border: rgb(0x6c7086),
        selection: rgb(0x313244),
        accent: rgb(0xcba6f7),
        overdue: rgb(0xf38ba8),
        today: rgb(0xfab387),
        done: rgb(0xa6e3a1),
        done_text: rgb(0x7f849c),
        tag: rgb(0x89b4fa),
        priority: rgb(0xf9e2af),
    }
}

/// The `catppuccin-latte` theme.
pub open spec fn latte_theme() -> Theme {
    Theme {
        background: Colour::Reset,
        foreground: rgb_of(0x4c4f69),
        dim: rgb_of(0x6c6f85),
        border: rgb_of(0x9ca0b0),
        selection: rgb_of(0xccd0da),
        accent: rgb_of(0x8839ef),
        overdue: rgb_of(0xd20f39),
        today: rgb_of(0xfe640b),
        done: rgb_of(0x40a02b),
        done_text: rgb_of(0x8c8fa1),
        tag: rgb_of(0x1e66f5),
        priority: rgb_of(0xdf8e1d),
    }
}

pub fn latte() -> (r: Theme)
    ensures
        r == latte_theme(),
{
    Theme {
        background: Colour::Reset,
        foreground: rgb(0x4c4f69),
        dim: rgb(0x6c6f85),
        border: rgb(0x9ca0b0),
        selection: rgb(0xccd0da),
        accent: rgb(0x8839ef),
        overdue: rgb(0xd20f39),
        today: rgb(0xfe640b),
        done: rgb(0x40a02b),
        done_text: rgb(0x8c8fa1),
        tag: rgb(0x1e66f5),
        priority: rgb(0xdf8e1d),
    }
}

/// The `gruvbox-dark` theme.
pub open spec fn gruvbox_dark_theme() -> Theme {
    Theme {
        background: Colour::Reset,
        foreground: rgb_of(0xebdbb2),
        dim: rgb_of(0xa89984),
        border: rgb_of(0x504945),
        selection: rgb_of(0x3c3836),
        accent: rgb_of(0xd3869b),
        overdue: rgb_of(0xfb4934),
        today: rgb_of(0xfe8019),
        done: rgb_of(0xb8bb26),
        done_text: rgb_of(0x928374),
        tag: rgb_of(0x83a598),
        priority: rgb_of(0xfabd2f),
    }
}

pub fn gruvbox_dark() -> (r: Theme)
    ensures
        r == gruvbox_dark_theme(),
{
    Theme {
        background: Colour::Reset,
        foreground: rgb(0xebdbb2),
        dim: rgb(0xa89984),
        border: rgb(0x504945),
        selection: rgb(0x3c3836),
        accent: rgb(0xd3869b),
        overdue: rgb(0xfb4934),
        today: rgb(0xfe8019),
        done: rgb(0xb8bb26),
        done_text: rgb(0x928374),
        tag: rgb(0x83a598),
        priority: rgb(0xfabd2f),
    }
}

/// The `nord` theme.
pub open spec fn nord_theme() -> Theme {
    Theme {
        background: Colour::Reset,
        foreground: rgb_of(0xd8dee9),
        dim: rgb_of(0x9aa5b6),
        border: rgb_of(0x4c566a),
        selection: rgb_of(0x3b4252),
        accent: rgb_of(0x88c0d0),
        overdue: rgb_of(0xbf616a),
        today: rgb_of(0xd08770),
        done: rgb_of(0xa3be8c),
        done_text: rgb_of(0x616e88),
        tag: rgb_of(0x81a1c1),
        priority: rgb_of(0xebcb8b),
    }
}

pub fn nord() -> (r: Theme)
    ensures
        r == nord_theme(),
{
    Theme {
        background: Colour::Reset,
        foreground: rgb(0xd8dee9),
        dim: rgb(0x9aa5b6),
        border: rgb(0x4c566a),
        selection: rgb(0x3b4252),
        accent: rgb(0x88c0d0),
        overdue: rgb(0xbf616a),
        today: rgb(0xd08770),
        done: rgb(0xa3be8c),
        done_text: rgb(0x616e88),
        tag: rgb(0x81a1c1),
        priority: rgb(0xebcb8b),
    }
}

/// The `dracula` theme.
pub open spec fn dracula_theme() -> Theme {
    Theme {
        background: Colour::Reset,
        foreground: rgb_of(0xf8f8f2),
        dim: rgb_of(0x9aa4c8),
        border: rgb_of(0x44475a),
        selection: rgb_of(0x44475a),
        accent: rgb_of(0xbd93f9),
        overdue: rgb_of(0xff5555),
        today: rgb_of(0xffb86c),
        done: rgb_of(0x50fa7b),
        done_text: rgb_of(0x6272a4),
        tag: rgb_of(0x8be9fd),
        priority: rgb_of(0xf1fa8c),
    }
}

pub fn dracula() -> (r: Theme)
    ensures
        r == dracula_theme(),
{
    Theme {
        background: Colour::Reset,
        foreground: rgb(0xf8f8f2),
        dim: rgb(0x9aa4c8),
        border: rgb(0x44475a),
        selection: rgb(0x44475a),
        accent: rgb(0xbd93f9),
        overdue: rgb(0xff5555),
        today: rgb(0xffb86c),
        done: rgb(0x50fa7b),
        done_text: rgb(0x6272a4),
        tag: rgb(0x8be9fd),
        priority: rgb(0xf1fa8c),
    }
}

/// The `terminal` theme.
pub open spec fn terminal_theme() -> Theme {
    Theme {
        background: Colour::Reset,
        foreground: Colour::Indexed(7),
        dim: Colour::Indexed(8),
        border: Colour::Indexed(8),
        selection: Colour::Indexed(8),
        accent: Colour::Indexed(5),
        overdue: Colour::Indexed(1),
        today: Colour::Indexed(3),
        done: Colour::Indexed(2),
        done_text: Colour::Indexed(8),
        tag: Colour::Indexed(4),
        priority: Colour::Indexed(6),
    }
}

pub fn terminal() -> (r: Theme)
    ensures
        r == terminal_theme(),
{
    Theme {
        background: Colour::Reset,
        foreground: Colour::Indexed(7),
        dim: Colour::Indexed(8),
        border: Colour::Indexed(8),
        selection: Colour::Indexed(8),
        accent: Colour::Indexed(5),
        overdue: Colour::Indexed(1),
        today: Colour::Indexed(3),
        done: Colour::Indexed(2),
        done_text: Colour::Indexed(8),
        tag: Colour::Indexed(4),
        priority: Colour::Indexed(6),
    }
}

/// The built-in theme called `name`.
pub open spec fn built_in_of(name: Seq<char>) -> Option<Theme> {
    if name == "catppuccin-mocha"@ {
        Some(mocha_theme())
    } else if name == "catppuccin-latte"@ {
        Some(latte_theme())
    } else if name == "gruvbox-dark"@ {
        Some(gruvbox_dark_theme())
    } else if name == "nord"@ {
        Some(nord_theme())
    } else if name == "dracula"@ {
        Some(dracula_theme())
    } else if name == "terminal"@ {
        Some(terminal_theme())
    } else {
        None
    }
}

/// The names `theme =` and `--theme` accept, in the documented order.
pub fn built_in_names() -> (r: Vec<&'static str>)
    ensures
        r@.len() == 6,
        r@[0]@ == "catppuccin-mocha"@,
        r@[1]@ == "catppuccin-latte"@,
        r@[2]@ == "gruvbox-dark"@,
        r@[3]@ == "nord"@,
        r@[4]@ == "dracula"@,
        r@[5]@ == "terminal"@,
{
    vec!["catppuccin-mocha", "catppuccin-latte", "gruvbox-dark", "nord", "dracula", "terminal"]
}

pub fn built_in(name: &str) -> (r: Option<Theme>)
    ensures
        r == built_in_of(name@),
{
    let v = chars_of(name);
    let n0 = chars_of("catppuccin-mocha");
    if same_chars(&v, &n0) {
        return Some(mocha());
    }
    let n1 = chars_of("catppuccin-latte");
    if same_chars(&v, &n1) {
        return Some(latte());
    }
    let n2 = chars_of("gruvbox-dark");
    if same_chars(&v, &n2) {
        return Some(gruvbox_dark());
    }
    let n3 = chars_of("nord");
    if same_chars(&v, &n3) {
        return Some(nord());
    }
    let n4 = chars_of("dracula");
    if same_chars(&v, &n4) {
        return Some(dracula());
    }
    let n5 = chars_of("terminal");
    if same_chars(&v, &n5) {
        return Some(terminal());
    }
    None
}

/// The eight ANSI names, in index order.
pub open spec fn ansi_name(i: int) -> Seq<char> {
    if i == 0 {
        "black"@
    } else if i == 1 {
        "red"@
    } else if i == 2 {
        "green"@
    } else if i == 3 {
        "yellow"@
    } else if i == 4 {
        "blue"@
    } else if i == 5 {
        "magenta"@
    } else if i == 6 {
        "cyan"@
    } else {
        "white"@
    }
}

pub open spec fn ansi_of(name: Seq<char>) -> Option<int> {
    if name == "black"@ {
        Some(0)
    } else if name == "red"@ {
        Some(1)
    } else if name == "green"@ {
        Some(2)
    } else if name == "yellow"@ {
        Some(3)
    } else if name == "blue"@ {
        Some(4)
    } else if name == "magenta"@ {
        Some(5)
    } else if name == "cyan"@ {
        Some(6)
    } else if name == "white"@ {
        Some(7)
    } else {
        None
    }
}

fn ansi_str(i: u8) -> (r: &'static str)
    requires
        i < 8,
    ensures
        r@ == ansi_name(i as int),
{
    if i == 0 {
        "black"
    } else if i == 1 {
        "red"
    } else if i == 2 {
        "green"
    } else if i == 3 {
        "yellow"
    } else if i == 4 {
        "blue"
    } else if i == 5 {
        "magenta"
    } else if i == 6 {
        "cyan"
    } else {
        "white"
    }
}

fn ansi_index(name: &Vec<char>) -> (r: Option<u8>)
    ensures
        match ansi_of(name@) {
            Some(i) => r == Some(i as u8),
            None => r is None,
        },
{
    let mut i: u8 = 0;
    while i < 8
        invariant
            i <= 8,
            forall|j: int| 0 <= j < i ==> #[trigger] ansi_name(j) != name@,
        decreases 8 - i,
    {
        let known = chars_of(ansi_str(i));
        if same_chars(name, &known) {
            proof {
                assert forall|j: int| 0 <= j < 8 && j != i implies ansi_name(j) != name@ by {
                    lemma_ansi_names_differ(i as int, j);
                }
                lemma_ansi_of(name@, i as int);
            }
            return Some(i);
        }
        i += 1;
    }
    proof {
        assert(ansi_name(0) != name@ && ansi_name(1) != name@ && ansi_name(2) != name@);
        assert(ansi_name(3) != name@ && ansi_name(4) != name@ && ansi_name(5) != name@);
        assert(ansi_name(6) != name@ && ansi_name(7) != name@);
    }
    None
}

proof fn lemma_ansi_names_differ(i: int, j: int)
    requires
        0 <= i < 8,
        0 <= j < 8,
        i != j,
    ensures
        ansi_name(i) != ansi_name(j),
{
    reveal_strlit("black");
    reveal_strlit("red");
    reveal_strlit("green");
    reveal_strlit("yellow");
    reveal_strlit("blue");
    reveal_strlit("magenta");
    reveal_strlit("cyan");
    reveal_strlit("white");
    if ansi_name(i) == ansi_name(j) {
        let a = ansi_name(i);
        let b = ansi_name(j);
        assert(a.len() == b.len());
        assert(a[0] == b[0]);
        assert(a[a.len() - 1] == b[b.len() - 1]);
        assert(a.len() > 1 ==> a[1] == b[1]);
    }
}

proof fn lemma_ansi_of(name: Seq<char>, i: int)
    requires
        0 <= i < 8,
        name == ansi_name(i),
        forall|j: int| 0 <= j < 8 && j != i ==> ansi_name(j) != name,
    ensures
        ansi_of(name) == Some(i),
{
    assert(i != 0 ==> ansi_name(0) != name);
    assert(i != 1 ==> ansi_name(1) != name);
    assert(i != 2 ==> ansi_name(2) != name);
    assert(i != 3 ==> ansi_name(3) != name);
    assert(i != 4 ==> ansi_name(4) != name);
    assert(i != 5 ==> ansi_name(5) != name);
    assert(i != 6 ==> ansi_name(6) != name);
    assert(i != 7 ==> ansi_name(7) != name);
}

pub open spec fn hex_digit(c: char) -> Option<int> {
    if '0' <= c <= '9' {
        Some(c as int - '0' as int)
    } else if 'a' <= c <= 'f' {
        Some(c as int - 'a' as int + 10)
    } else if 'A' <= c <= 'F' {
        Some(c as int - 'A' as int + 10)
    } else {
        None
    }
}

pub open spec fn all_hex(s: Seq<char>) -> bool {
    forall|i: int| 0 <= i < s.len() ==> hex_digit(#[trigger] s[i]) is Some
}

pub open spec fn hex_value(s: Seq<char>) -> int
    decreases s.len(),
{
    if s.len() == 0 {
        0
    } else {
        hex_value(s.drop_last()) * 16 + hex_digit(s.last())->0
    }
}

/// What `u32::from_str_radix(s, 16)` accepts: an optional `+`, then one or
/// more hexadecimal digits, with a value that fits.
pub open spec fn radix16(s: Seq<char>) -> Option<int> {
    let b = if s.len() > 0 && s[0] == '+' {
        s.drop_first()
    } else {
        s
    };
    if b.len() > 0 && all_hex(b) && hex_value(b) <= u32::MAX {
        Some(hex_value(b))
    } else {
        None
    }
}

/// Every character twice: `#c9f` is `#cc99ff`.
pub open spec fn doubled(s: Seq<char>) -> Seq<char>
    decreases s.len(),
{
    if s.len() == 0 {
        seq![]
    } else {
        doubled(s.drop_last()) + seq![s.last(), s.last()]
    }
}

/// `none`, `#rrggbb`, `#rgb`, an index 0 to 15, or an ANSI name, bright or
/// not, around any amount of white space.
pub open spec fn colour_of(text: Seq<char>) -> Option<Colour> {
    let t = trim(text);
    if lower_ascii(t) == "none"@ || lower_ascii(t) == "default"@ {
        Some(Colour::Reset)
    } else if t.len() > 0 && t[0] == '#' {
        let hex = t.drop_first();
        if byte_len(hex) == 3 || byte_len(hex) == 6 {
            let e = if byte_len(hex) == 3 {
                doubled(hex)
            } else {
                hex
            };
            match radix16(e) {
                Some(v) => Some(rgb_of(v)),
                None => None,
            }
        } else {
            None
        }
    } else if u64_of(t) is Some && u64_of(t)->0 <= 255 {
        if u64_of(t)->0 <= 15 {
            Some(Colour::Indexed(u64_of(t)->0 as u8))
        } else {
            None
        }
    } else {
        let (name, offset) = if t.len() >= 7 && t.take(7) == "bright_"@ {
            (t.skip(7), 8int)
        } else {
            (t, 0int)
        };
        match ansi_of(name) {
            Some(i) => Some(Colour::Indexed((i + offset) as u8)),
            None => None,
        }
    }
}

fn parse_hex(v: &Vec<char>) -> (r: Option<u32>)
    ensures
        match radix16(v@) {
            Some(n) => r matches Some(k) && k as int == n,
            None => r is None,
        },
{
    let start: usize = if v.len() > 0 && v[0] == '+' {
        1
    } else {
        0
    };
    let ghost b = v@.subrange(start as int, v@.len() as int);
    assert(b =~= (if v@.len() > 0 && v@[0] == '+' {
        v@.drop_first()
    } else {
        v@
    }));
    if start >= v.len() {
        assert(b.len() == 0);
        return None;
    }
    let mut acc: u32 = 0;
    let mut j: usize = start;
    let mut over = false;
    while j < v.len()
        invariant
            start <= j <= v@.len(),
            b == v@.subrange(start as int, v@.len() as int),
            b == (if v@.len() > 0 && v@[0] == '+' {
                v@.drop_first()
            } else {
                v@
            }),
            b.len() > 0,
            all_hex(b.take(j - start)),
            !over ==> acc == hex_value(b.take(j - start)),
            over ==> hex_value(b.take(j - start)) > u32::MAX,
        decreases v@.len() - j,
    {
        let c = v[j];
        let d: u32 = if '0' <= c && c <= '9' {
            c as u32 - '0' as u32
        } else if 'a' <= c && c <= 'f' {
            c as u32 - 'a' as u32 + 10
        } else if 'A' <= c && c <= 'F' {
            c as u32 - 'A' as u32 + 10
        } else {
            assert(!all_hex(b)) by {
                assert(b[j - start] == c);
            }
            return None;
        };
        let ghost k = j - start;
        assert(b.take(k + 1).drop_last() =~= b.take(k));
        assert(b.take(k + 1).last() == c);
        assert(all_hex(b.take(k + 1))) by {
            assert forall|i: int| 0 <= i < k + 1 implies hex_digit(#[trigger] b.take(k + 1)[i]) is Some by {
                if i < k {
                    assert(b.take(k + 1)[i] == b.take(k)[i]);
                }
            }
        }
        if !over {
            match acc.checked_mul(16) {
                Some(m) => match m.checked_add(d) {
                    Some(n) => {
                        acc = n;
                    },
                    None => {
                        over = true;
                    },
                },
                None => {
                    over = true;
                },
            }
        } else {
            proof {
                lemma_hex_nonneg(b.take(k));
            }
        }
        j += 1;
    }
    assert(b.take(b.len() as int) =~= b);
    if over {
        return None;
    }
    Some(acc)
}

proof fn lemma_hex_nonneg(s: Seq<char>)
    requires
        all_hex(s),
    ensures
        hex_value(s) >= 0,
    decreases s.len(),
{
    if s.len() > 0 {
        assert(all_hex(s.drop_last())) by {
            assert forall|i: int| 0 <= i < s.drop_last().len() implies hex_digit(
                #[trigger] s.drop_last()[i],
            ) is Some by {
                assert(s.drop_last()[i] == s[i]);
            }
        }
        lemma_hex_nonneg(s.drop_last());
        assert(hex_digit(s.last()) is Some);
    }
}

fn doubled_chars(v: &Vec<char>) -> (r: Vec<char>)
    ensures
        r@ == doubled(v@),
{
    let mut r: Vec<char> = Vec::new();
    let mut i: usize = 0;
    while i < v.len()
        invariant
            i <= v@.len(),
            r@ == doubled(v@.take(i as int)),
        decreases v@.len() - i,
    {
        assert(v@.take(i + 1).drop_last() =~= v@.take(i as int));
        r.push(v[i]);
        r.push(v[i]);
        assert(r@ =~= doubled(v@.take(i + 1)));
        i += 1;
    }
    assert(v@.take(v@.len() as int) =~= v@);
    r
}

pub fn parse_colour(text: &str) -> (r: Option<Colour>)
    ensures
        r == colour_of(text@),
{
    let t = trimmed(&chars_of(text));
    let low = lowered(&t);
    let none_w: Vec<char> = vec!['n', 'o', 'n', 'e'];
    let default_w: Vec<char> = vec!['d', 'e', 'f', 'a', 'u', 'l', 't'];
    proof {
        reveal_strlit("none");
        reveal_strlit("default");
        reveal_strlit("bright_");
    }
    assert(none_w@ =~= "none"@);
    assert(default_w@ =~= "default"@);
    if same_chars(&low, &none_w) || same_chars(&low, &default_w) {
        return Some(Colour::Reset);
    }
    if t.len() > 0 && t[0] == '#' {
        let hex = slice_chars(&t, 1, t.len());
        assert(hex@ =~= t@.drop_first());
        let bytes = byte_count(string_of(&hex).as_str());
        if bytes != 3 && bytes != 6 {
            return None;
        }
        let e = if bytes == 3 {
            doubled_chars(&hex)
        } else {
            hex
        };
        return match parse_hex(&e) {
            Some(v) => Some(rgb(v)),
            None => None,
        };
    }
    match crate::capture::parse_u64(&t) {
        Some(n) => {
            if n <= 255 {
                if n <= 15 {
                    return Some(Colour::Indexed(n as u8));
                } else {
                    return None;
                }
            }
        },
        None => {},
    }
    let bright: Vec<char> = vec!['b', 'r', 'i', 'g', 'h', 't', '_'];
    assert(bright@ =~= "bright_"@);
    let (name, offset): (Vec<char>, u8) = if t.len() >= 7 && same_chars(&slice_chars(&t, 0, 7), &bright) {
        assert(t@.subrange(0, 7) =~= t@.take(7));
        (slice_chars(&t, 7, t.len()), 8)
    } else {
        proof {
            if t@.len() >= 7 {
                assert(t@.subrange(0, 7) =~= t@.take(7));
            }
        }
        (t, 0)
    };
    assert(name@ == (if t@.len() >= 7 && t@.take(7) == "bright_"@ {
        t@.skip(7)
    } else {
        t@
    }));
    match ansi_index(&name) {
        Some(i) => Some(Colour::Indexed(i + offset)),
        None => None,
    }
}

fn push_hex2(s: &mut String, b: u8)
    ensures
        final(s)@ == old(s)@ + crate::ics::hex_text(b as nat, 2),
{
    let hi = b / 16;
    let lo = b % 16;
    let h = if hi < 10 {
        ((48u8 + hi) as char)
    } else {
        ((97u8 + hi - 10) as char)
    };
    let l = if lo < 10 {
        ((48u8 + lo) as char)
    } else {
        ((97u8 + lo - 10) as char)
    };
    push_char(s, h);
    push_char(s, l);
    proof {
        assert(crate::ics::hex_text(b as nat, 2) =~= crate::ics::hex_text((b / 16) as nat, 1).push(
            crate::ics::hex_char((b % 16) as nat),
        ));
        assert(crate::ics::hex_text((b / 16) as nat, 1) =~= crate::ics::hex_text(
            (b as int / 256) as nat,
            0,
        ).push(crate::ics::hex_char((b / 16 % 16) as nat)));
        assert((b / 16) % 16 == b / 16);
    }
    assert(final(s)@ =~= old(s)@ + crate::ics::hex_text(b as nat, 2));
}

/// How `dump` writes a colour: the form `parse_colour` reads back, for all
/// but a palette index past the sixteen ANSI colours.
pub open spec fn colour_text(c: Colour) -> Seq<char> {
    match c {
        Colour::Reset => "none"@,
        Colour::Rgb(r, g, b) => seq!['#'] + crate::ics::hex_text(r as nat, 2) + crate::ics::hex_text(
            g as nat,
            2,
        ) + crate::ics::hex_text(b as nat, 2),
        Colour::Indexed(i) => if i < 8 {
            ansi_name(i as int)
        } else if i < 16 {
            "bright_"@ + ansi_name(i - 8)
        } else {
            digits(i as nat)
        },
    }
}

pub fn write_colour(colour: Colour) -> (r: String)
    ensures
        r@ == colour_text(colour),
{
    let mut s = String::new();
    match colour {
        Colour::Reset => push_str(&mut s, "none"),
        Colour::Rgb(r, g, b) => {
            push_char(&mut s, '#');
            push_hex2(&mut s, r);
            push_hex2(&mut s, g);
            push_hex2(&mut s, b);
        },
        Colour::Indexed(i) => {
            if i < 8 {
                push_str(&mut s, ansi_str(i));
            } else if i < 16 {
                push_str(&mut s, "bright_");
                push_str(&mut s, ansi_str(i - 8));
            } else {
                let d = crate::strs::decimal(i as u64);
                push_str(&mut s, d.as_str());
            }
        },
    }
    assert(s@ =~= colour_text(colour));
    s
}

/// The first line of a dump.
pub open spec fn dump_header() -> Seq<char> {
    "# ratodo theme \u{2014} see docs/theming.md\n\n"@
}

/// `name       = value`: the name padded to eleven columns.
pub open spec fn dump_line(i: int, c: Colour) -> Seq<char> {
    role_name(i) + crate::ui::repeated(seq![' '], (11 - role_name(i).len()) as nat) + "= "@
        + colour_text(c) + seq!['\n']
}

pub open spec fn dump_lines(t: Theme, n: int) -> Seq<char>
    decreases n,
{
    if n <= 0 {
        seq![]
    } else {
        dump_lines(t, n - 1) + dump_line(n - 1, role(t, n - 1))
    }
}

/// A `theme.conf` this theme parses back to.
pub open spec fn dump_text(t: Theme) -> Seq<char> {
    dump_header() + dump_lines(t, 12)
}

impl Theme {
    pub fn dump(self) -> (r: String)
        ensures
            r@ == dump_text(self),
    {
        let mut out = String::new();
        push_str(&mut out, "# ratodo theme \u{2014} see docs/theming.md\n\n");
        let pairs = self.pairs();
        let mut i: usize = 0;
        while i < 12
            invariant
                i <= 12,
                pairs@.len() == 12,
                forall|j: int| 0 <= j < 12 ==> #[trigger] pair_views(pairs@)[j] == (role_name(j), role(self, j)),
                out@ == dump_header() + dump_lines(self, i as int),
            decreases 12 - i,
        {
            let (name, colour) = pairs[i];
            assert(pair_views(pairs@)[i as int] == (name@, colour));
            push_str(&mut out, name);
            let n = name.unicode_len();
            assert(n <= 10) by {
                reveal_strlit("background");
                reveal_strlit("foreground");
                reveal_strlit("dim");
                reveal_strlit("border");
                reveal_strlit("selection");
                reveal_strlit("accent");
                reveal_strlit("overdue");
                reveal_strlit("today");
                reveal_strlit("done");
                reveal_strlit("done_text");
                reveal_strlit("tag");
                reveal_strlit("priority");
            }
            let mut k: usize = n;
            let ghost before = out@;
            while k < 11
                invariant
                    n <= k <= 11,
                    out@ == before + crate::ui::repeated(seq![' '], (k - n) as nat),
                decreases 11 - k,
            {
                push_char(&mut out, ' ');
                assert(out@ =~= before + crate::ui::repeated(seq![' '], (k + 1 - n) as nat));
                k += 1;
            }
            push_str(&mut out, "= ");
            let c = write_colour(colour);
            push_str(&mut out, c.as_str());
            push_char(&mut out, '\n');
            assert(out@ =~= dump_header() + dump_lines(self, i + 1));
            i += 1;
        }
        out
    }
}

/// The pieces of `s` between its line feeds.
pub open spec fn nl_split(s: Seq<char>) -> Seq<Seq<char>>
    decreases s.len(),
{
    if s.len() == 0 {
        seq![seq![]]
    } else {
        let p = nl_split(s.drop_last());
        if s.last() == '\n' {
            p.push(seq![])
        } else {
            p.update(p.len() - 1, p.last().push(s.last()))
        }
    }
}

/// `str::lines`: the pieces between line feeds, with no last empty one.
pub open spec fn text_lines(s: Seq<char>) -> Seq<Seq<char>> {
    let p = nl_split(s);
    if p.last().len() == 0 {
        p.drop_last()
    } else {
        p
    }
}

pub proof fn lemma_nl_split_len(s: Seq<char>)
    ensures
        nl_split(s).len() >= 1,
    decreases s.len(),
{
    if s.len() > 0 {
        lemma_nl_split_len(s.drop_last());
    }
}

pub open spec fn char_views(v: Seq<Vec<char>>) -> Seq<Seq<char>> {
    v.map_values(|x: Vec<char>| x@)
}

fn lines_of(v: &Vec<char>) -> (r: Vec<Vec<char>>)
    ensures
        char_views(r@) == text_lines(v@),
{
    let mut done: Vec<Vec<char>> = Vec::new();
    let mut cur: Vec<char> = Vec::new();
    let mut i: usize = 0;
    assert(v@.take(0) =~= Seq::<char>::empty());
    assert(char_views(done@).push(cur@) =~= nl_split(v@.take(0)));
    while i < v.len()
        invariant
            i <= v@.len(),
            char_views(done@).push(cur@) == nl_split(v@.take(i as int)),
        decreases v@.len() - i,
    {
        let ghost before = char_views(done@);
        assert(v@.take(i + 1).drop_last() =~= v@.take(i as int));
        assert(v@.take(i + 1).last() == v@[i as int]);
        proof {
            lemma_nl_split_len(v@.take(i as int));
        }
        if v[i] == '\n' {
            let finished = cur;
            done.push(finished);
            cur = Vec::new();
            assert(char_views(done@) =~= before.push(finished@));
            assert(char_views(done@).push(cur@) =~= nl_split(v@.take(i + 1)));
        } else {
            let ghost c0 = cur@;
            cur.push(v[i]);
            assert(char_views(done@).push(cur@) =~= before.push(c0).update(
                before.len() as int,
                c0.push(v@[i as int]),
            ));
        }
        i += 1;
    }
    assert(v@.take(v@.len() as int) =~= v@);
    if cur.len() > 0 {
        let ghost before = char_views(done@);
        done.push(cur);
        assert(char_views(done@) =~= nl_split(v@));
    } else {
        assert(char_views(done@) =~= nl_split(v@).drop_last());
    }
    done
}

/// What a `theme.conf` said, and everything wrong with it. A broken theme
/// file never stops the program: the warnings go back to the caller.
#[derive(Debug, Clone, PartialEq, Eq)]
pub struct Parsed {
    pub theme: Theme,
    pub warnings: Vec<String>,
}

/// The `key = value` lines of a file, and a warning for each line that is
/// neither that nor blank nor a comment.
pub open spec fn entries_of(lines: Seq<Seq<char>>) -> (Seq<(int, Seq<char>, Seq<char>)>, Seq<Seq<char>>)
    decreases lines.len(),
{
    if lines.len() == 0 {
        (seq![], seq![])
    } else {
        let (es, ws) = entries_of(lines.drop_last());
        let no = lines.len() as int;
        let line = trim(lines.last());
        if line.len() == 0 || line[0] == '#' {
            (es, ws)
        } else {
            match crate::ui::first_from(line, seq!['='], 0) {
                Some(at) => (es.push((no, trim(line.take(at)), trim(line.skip(at + 1)))), ws),
                None => (es, ws.push("line "@ + digits(no as nat) + ": expected `key = value`"@)),
            }
        }
    }
}

/// The theme named by the `theme =` lines, last one winning, whatever line
/// they stand on; a warning for each name that is not a built-in.
pub open spec fn base_of(es: Seq<(int, Seq<char>, Seq<char>)>) -> (Theme, Seq<Seq<char>>)
    decreases es.len(),
{
    if es.len() == 0 {
        (mocha_theme(), seq![])
    } else {
        let (t, ws) = base_of(es.drop_last());
        let (no, key, value) = es.last();
        if key == "theme"@ {
            match built_in_of(value) {
                Some(b) => (b, ws),
                None => (
                    t,
                    ws.push(
                        "line "@ + digits(no as nat) + ": no built-in theme called `"@ + value
                            + "`"@,
                    ),
                ),
            }
        } else {
            (t, ws)
        }
    }
}

/// The other lines applied in order over `base`; a warning for each value
/// that is not a colour and each key that is not a role.
pub open spec fn keys_of(es: Seq<(int, Seq<char>, Seq<char>)>, base: Theme) -> (Theme, Seq<Seq<char>>)
    decreases es.len(),
{
    if es.len() == 0 {
        (base, seq![])
    } else {
        let (t, ws) = keys_of(es.drop_last(), base);
        let (no, key, value) = es.last();
        if key == "theme"@ {
            (t, ws)
        } else {
            match colour_of(value) {
                None => (
                    t,
                    ws.push("line "@ + digits(no as nat) + ": `"@ + value + "` is not a colour"@),
                ),
                Some(c) => match role_of(key) {
                    Some(i) => (with_role(t, i, c), ws),
                    None => (
                        t,
                        ws.push(
                            "line "@ + digits(no as nat) + ": no theme key called `"@ + key
                                + "`"@,
                        ),
                    ),
                },
            }
        }
    }
}

/// The theme a file makes, and its warnings in the order they are found.
pub open spec fn parsed_of(text: Seq<char>) -> (Theme, Seq<Seq<char>>) {
    let (es, w1) = entries_of(text_lines(text));
    let (base, w2) = base_of(es);
    let (theme, w3) = keys_of(es, base);
    (theme, w1 + w2 + w3)
}

pub open spec fn entry_views(v: Seq<(usize, Vec<char>, Vec<char>)>) -> Seq<(int, Seq<char>, Seq<char>)> {
    v.map_values(|e: (usize, Vec<char>, Vec<char>)| (e.0 as int, e.1@, e.2@))
}

fn line_warning(no: usize, a: &str, middle: &Vec<char>, b: &str) -> (r: String)
    ensures
        r@ == "line "@ + digits(no as nat) + a@ + middle@ + b@,
{
    let mut w = String::new();
    push_str(&mut w, "line ");
    let n = crate::strs::decimal(no as u64);
    push_str(&mut w, n.as_str());
    push_str(&mut w, a);
    crate::strs::push_chars(&mut w, middle);
    push_str(&mut w, b);
    w
}

fn find_eq(line: &Vec<char>) -> (r: Option<usize>)
    ensures
        match crate::ui::first_from(line@, seq!['='], 0) {
            Some(i) => r == Some(i as usize),
            None => r is None,
        },
        r matches Some(i) ==> i < line@.len() && crate::ui::first_from(line@, seq!['='], 0) == Some(
            i as int,
        ),
{
    let mut i: usize = 0;
    while i < line.len()
        invariant
            i <= line@.len(),
            crate::ui::first_from(line@, seq!['='], i as int) == crate::ui::first_from(
                line@,
                seq!['='],
                0,
            ),
        decreases line@.len() - i,
    {
        if line[i] == '=' {
            assert(line@.subrange(i as int, i + 1) =~= seq!['=']);
            return Some(i);
        }
        assert(line@.subrange(i as int, i + 1) != seq!['=']) by {
            assert(line@.subrange(i as int, i + 1)[0] == line@[i as int]);
        }
        i += 1;
    }
    None
}

/// `key = value` per line; a `#` at the start of a line is a comment and
/// anywhere else it is part of a colour. `theme = <name>` is applied before
/// the individual keys, whatever line it stands on.
pub fn parse(text: &str) -> (r: Parsed)
    ensures
        (r.theme, crate::model::views(r.warnings@)) == parsed_of(text@),
{
    let v = chars_of(text);
    let lines = lines_of(&v);
    let ghost gl = text_lines(v@);
    let mut entries: Vec<(usize, Vec<char>, Vec<char>)> = Vec::new();
    let mut warnings: Vec<String> = Vec::new();
    let mut i: usize = 0;
    assert(gl.take(0) =~= Seq::<Seq<char>>::empty());
    while i < lines.len()
        invariant
            i <= lines@.len(),
            char_views(lines@) == gl,
            (entry_views(entries@), crate::model::views(warnings@)) == entries_of(gl.take(i as int)),
        decreases lines@.len() - i,
    {
        assert(gl.take(i + 1).drop_last() =~= gl.take(i as int));
        assert(gl.take(i + 1).last() == lines@[i as int]@);
        let line = crate::strs::trimmed(&lines[i]);
        let ghost e0 = entry_views(entries@);
        let ghost w0 = crate::model::views(warnings@);
        let ghost prev = entries_of(gl.take(i as int));
        assert(line@ == trim(gl.take(i + 1).last()));
        if line.len() == 0 || line[0] == '#' {
            assert(entries_of(gl.take(i + 1)) == prev);
        } else {
            match find_eq(&line) {
                Some(at) => {
                    let key = crate::strs::trimmed(&slice_chars(&line, 0, at));
                    let value = crate::strs::trimmed(&slice_chars(&line, at + 1, line.len()));
                    assert(line@.subrange(0, at as int) =~= line@.take(at as int));
                    assert(line@.subrange(at + 1, line@.len() as int) =~= line@.skip(at + 1));
                    entries.push((i + 1, key, value));
                    assert(entry_views(entries@) =~= e0.push(((i + 1) as int, key@, value@)));
                    assert(entries_of(gl.take(i + 1)) == (prev.0.push(((i + 1) as int, key@, value@)), prev.1));
                },
                None => {
                    let empty: Vec<char> = Vec::new();
                    let w = line_warning(i + 1, ": expected `key = value`", &empty, "");
                    proof {
                        reveal_strlit("");
                    }
                    assert(empty@ =~= Seq::<char>::empty());
                    assert(w@ =~= "line "@ + digits((i + 1) as nat) + ": expected `key = value`"@);
                    warnings.push(w);
                    assert(crate::model::views(warnings@) =~= w0.push(w@));
                    assert(entries_of(gl.take(i + 1)) == (prev.0, prev.1.push(w@)));
                },
            }
        }
        i += 1;
    }
    assert(gl.take(lines@.len() as int) =~= gl);
    let ghost es = entry_views(entries@);
    let ghost w1 = crate::model::views(warnings@);
    let mut theme = mocha();
    let mut k: usize = 0;
    assert(es.take(0) =~= Seq::<(int, Seq<char>, Seq<char>)>::empty());
    assert(w1 + Seq::<Seq<char>>::empty() =~= w1);
    while k < entries.len()
        invariant
            k <= entries@.len(),
            es == entry_views(entries@),
            (theme, crate::model::views(warnings@)) == (base_of(es.take(k as int)).0, w1 + base_of(es.take(k as int)).1),
        decreases entries@.len() - k,
    {
        assert(es.take(k + 1).drop_last() =~= es.take(k as int));
        assert(es.take(k + 1).last() == es[k as int]);
        let ghost w0 = crate::model::views(warnings@);
        let is_theme = same_chars(&entries[k].1, &vec!['t', 'h', 'e', 'm', 'e']);
        assert(seq!['t', 'h', 'e', 'm', 'e'] =~= "theme"@) by {
            reveal_strlit("theme");
        }
        if is_theme {
            let name = string_of(&entries[k].2);
            match built_in(name.as_str()) {
                Some(b) => {
                    theme = b;
                },
                None => {
                    let w = line_warning(entries[k].0, ": no built-in theme called `", &entries[k].2, "`");
                    warnings.push(w);
                    assert(crate::model::views(warnings@) =~= w0.push(w@));
                },
            }
        }
        k += 1;
    }
    assert(es.take(entries@.len() as int) =~= es);
    let ghost base = theme;
    let ghost w2 = base_of(es).1;
    let mut m: usize = 0;
    assert(w1 + w2 + Seq::<Seq<char>>::empty() =~= w1 + w2);
    while m < entries.len()
        invariant
            m <= entries@.len(),
            es == entry_views(entries@),
            (theme, crate::model::views(warnings@)) == (keys_of(es.take(m as int), base).0, w1 + w2
                + keys_of(es.take(m as int), base).1),
        decreases entries@.len() - m,
    {
        assert(es.take(m + 1).drop_last() =~= es.take(m as int));
        assert(es.take(m + 1).last() == es[m as int]);
        let ghost w0 = crate::model::views(warnings@);
        let is_theme = same_chars(&entries[m].1, &vec!['t', 'h', 'e', 'm', 'e']);
        assert(seq!['t', 'h', 'e', 'm', 'e'] =~= "theme"@) by {
            reveal_strlit("theme");
        }
        if !is_theme {
            let value = string_of(&entries[m].2);
            match parse_colour(value.as_str()) {
                None => {
                    let w = line_warning(entries[m].0, ": `", &entries[m].2, "` is not a colour");
                    warnings.push(w);
                    assert(crate::model::views(warnings@) =~= w0.push(w@));
                },
                Some(c) => {
                    let key = string_of(&entries[m].1);
                    if !theme.set(key.as_str(), c) {
                        let w = line_warning(entries[m].0, ": no theme key called `", &entries[m].1, "`");
                        warnings.push(w);
                        assert(crate::model::views(warnings@) =~= w0.push(w@));
                    }
                },
            }
        }
        m += 1;
    }
    assert(es.take(entries@.len() as int) =~= es);
    Parsed { theme, warnings }
}

/// The whole precedence chain: the built-in default, then the file's
/// `theme =`, then its keys, then `--theme`, then `NO_COLOR` over all.
pub open spec fn resolved_of(config: Option<Seq<char>>, flag: Option<Seq<char>>, no_colour: bool) -> (Theme, Seq<Seq<char>>) {
    let (t0, w0) = match config {
        Some(c) => parsed_of(c),
        None => (mocha_theme(), seq![]),
    };
    let (t1, w1) = match flag {
        Some(name) => match built_in_of(name) {
            Some(t) => (t, w0),
            None => (t0, w0.push("no built-in theme called `"@ + name + "`"@)),
        },
        None => (t0, w0),
    };
    if no_colour {
        (Theme::plain_theme(), w1)
    } else {
        (t1, w1)
    }
}

impl Theme {
    pub open spec fn plain_theme() -> Theme {
        Theme {
            background: Colour::Reset,
            foreground: Colour::Reset,
            dim: Colour::Reset,
            border: Colour::Reset,
            selection: Colour::Reset,
            accent: Colour::Reset,
            overdue: Colour::Reset,
            today: Colour::Reset,
            done: Colour::Reset,
            done_text: Colour::Reset,
            tag: Colour::Reset,
            priority: Colour::Reset,
        }
    }
}

pub fn resolve(config: Option<&str>, flag: Option<&str>, no_colour: bool) -> (r: Parsed)
    ensures
        (r.theme, crate::model::views(r.warnings@)) == resolved_of(
            match config {
                Some(c) => Some(c@),
                None => None,
            },
            match flag {
                Some(f) => Some(f@),
                None => None,
            },
            no_colour,
        ),
{
    let mut parsed = match config {
        Some(c) => parse(c),
        None => {
            let warnings: Vec<String> = Vec::new();
            assert(crate::model::views(warnings@) =~= Seq::<Seq<char>>::empty());
            Parsed { theme: mocha(), warnings }
        },
    };
    match flag {
        Some(name) => match built_in(name) {
            Some(t) => {
                parsed.theme = t;
            },
            None => {
                let ghost w0 = crate::model::views(parsed.warnings@);
                let mut w = String::new();
                push_str(&mut w, "no built-in theme called `");
                push_str(&mut w, name);
                push_str(&mut w, "`");
                parsed.warnings.push(w);
                assert(crate::model::views(parsed.warnings@) =~= w0.push(w@));
            },
        },
        None => {},
    }
    if no_colour {
        parsed.theme = Theme::plain();
        assert(parsed.theme == Theme::plain_theme());
    }
    parsed
}


/// A word that is none of the other forms a colour can take: not `none` or
/// `default`, not `#…`, not a number. It is read as an ANSI name.
proof fn lemma_a_colour_name(t: Seq<char>)
    requires
        trim(t).len() > 0,
        'a' <= trim(t)[0] <= 'z',
        trim(t)[0] != 'n',
        trim(t)[0] != 'd',
    ensures
        colour_of(t) == ({
            let n = trim(t);
            let (name, offset) = if n.len() >= 7 && n.take(7) == "bright_"@ {
                (n.skip(7), 8int)
            } else {
                (n, 0int)
            };
            match ansi_of(name) {
                Some(i) => Some(Colour::Indexed((i + offset) as u8)),
                None => None,
            }
        }),
{
    let n = trim(t);
    reveal_strlit("none");
    reveal_strlit("default");
    assert(lower_ascii(n)[0] == n[0]);
    assert(lower_ascii(n) != "none"@) by {
        if lower_ascii(n) == "none"@ {
            assert(lower_ascii(n)[0] == 'n');
        }
    }
    assert(lower_ascii(n) != "default"@) by {
        if lower_ascii(n) == "default"@ {
            assert(lower_ascii(n)[0] == 'd');
        }
    }
    assert(u64_of(n) is None) by {
        if n[0] != '+' {
            assert(!('0' <= n[0] <= '9'));
        }
    }
}

/// The eight ANSI names are the standard palette, whatever `dump` writes:
/// `black` 0, `red` 1, `green` 2, `yellow` 3, `blue` 4, `magenta` 5,
/// `cyan` 6, `white` 7, and `bright_` before a name adds eight.
pub proof fn law_ansi_names_are_the_standard_palette(t: Seq<char>)
    ensures
        trim(t) == "black"@ ==> colour_of(t) == Some(Colour::Indexed(0)),
        trim(t) == "red"@ ==> colour_of(t) == Some(Colour::Indexed(1)),
        trim(t) == "green"@ ==> colour_of(t) == Some(Colour::Indexed(2)),
        trim(t) == "yellow"@ ==> colour_of(t) == Some(Colour::Indexed(3)),
        trim(t) == "blue"@ ==> colour_of(t) == Some(Colour::Indexed(4)),
        trim(t) == "magenta"@ ==> colour_of(t) == Some(Colour::Indexed(5)),
        trim(t) == "cyan"@ ==> colour_of(t) == Some(Colour::Indexed(6)),
        trim(t) == "white"@ ==> colour_of(t) == Some(Colour::Indexed(7)),
        trim(t) == "bright_black"@ ==> colour_of(t) == Some(Colour::Indexed(8)),
        trim(t) == "bright_red"@ ==> colour_of(t) == Some(Colour::Indexed(9)),
        trim(t) == "bright_green"@ ==> colour_of(t) == Some(Colour::Indexed(10)),
        trim(t) == "bright_yellow"@ ==> colour_of(t) == Some(Colour::Indexed(11)),
        trim(t) == "bright_blue"@ ==> colour_of(t) == Some(Colour::Indexed(12)),
        trim(t) == "bright_magenta"@ ==> colour_of(t) == Some(Colour::Indexed(13)),
        trim(t) == "bright_cyan"@ ==> colour_of(t) == Some(Colour::Indexed(14)),
        trim(t) == "bright_white"@ ==> colour_of(t) == Some(Colour::Indexed(15)),
{
    reveal_strlit("bright_");
    reveal_strlit("black");
    reveal_strlit("red");
    reveal_strlit("green");
    reveal_strlit("yellow");
    reveal_strlit("blue");
    reveal_strlit("magenta");
    reveal_strlit("cyan");
    reveal_strlit("white");
    if trim(t) == "black"@ {
        reveal_strlit("black");

        lemma_a_colour_name(t);
    }
    if trim(t) == "bright_black"@ {
        reveal_strlit("bright_black");
        reveal_strlit("black");
        assert(trim(t).take(7) =~= "bright_"@);
        assert(trim(t).skip(7) =~= "black"@);

        lemma_a_colour_name(t);
    }
    if trim(t) == "red"@ {
        reveal_strlit("red");

        lemma_a_colour_name(t);
    }
    if trim(t) == "bright_red"@ {
        reveal_strlit("bright_red");
        reveal_strlit("red");
        assert(trim(t).take(7) =~= "bright_"@);
        assert(trim(t).skip(7) =~= "red"@);

        lemma_a_colour_name(t);
    }
    if trim(t) == "green"@ {
        reveal_strlit("green");
        assert("green"@ != "black"@) by { assert("green"@[0] != "black"@[0]); }
        lemma_a_colour_name(t);
    }
    if trim(t) == "bright_green"@ {
        reveal_strlit("bright_green");
        reveal_strlit("green");
        assert(trim(t).take(7) =~= "bright_"@);
        assert(trim(t).skip(7) =~= "green"@);
        assert("green"@ != "black"@) by { assert("green"@[0] != "black"@[0]); }
        lemma_a_colour_name(t);
    }
    if trim(t) == "yellow"@ {
        reveal_strlit("yellow");

        lemma_a_colour_name(t);
    }
    if trim(t) == "bright_yellow"@ {
        reveal_strlit("bright_yellow");
        reveal_strlit("yellow");
        assert(trim(t).take(7) =~= "bright_"@);
        assert(trim(t).skip(7) =~= "yellow"@);

        lemma_a_colour_name(t);
    }
    if trim(t) == "blue"@ {
        reveal_strlit("blue");

        lemma_a_colour_name(t);
    }
    if trim(t) == "bright_blue"@ {
        reveal_strlit("bright_blue");
        reveal_strlit("blue");
        assert(trim(t).take(7) =~= "bright_"@);
        assert(trim(t).skip(7) =~= "blue"@);

        lemma_a_colour_name(t);
    }
    if trim(t) == "magenta"@ {
        reveal_strlit("magenta");

        assert(trim(t).take(7) != "bright_"@) by { assert(trim(t).take(7)[0] != "bright_"@[0]); }
        lemma_a_colour_name(t);
    }
    if trim(t) == "bright_magenta"@ {
        reveal_strlit("bright_magenta");
        reveal_strlit("magenta");
        assert(trim(t).take(7) =~= "bright_"@);
        assert(trim(t).skip(7) =~= "magenta"@);

        lemma_a_colour_name(t);
    }
    if trim(t) == "cyan"@ {
        reveal_strlit("cyan");
        assert("cyan"@ != "blue"@) by { assert("cyan"@[0] != "blue"@[0]); }
        lemma_a_colour_name(t);
    }
    if trim(t) == "bright_cyan"@ {
        reveal_strlit("bright_cyan");
        reveal_strlit("cyan");
        assert(trim(t).take(7) =~= "bright_"@);
        assert(trim(t).skip(7) =~= "cyan"@);
        assert("cyan"@ != "blue"@) by { assert("cyan"@[0] != "blue"@[0]); }
        lemma_a_colour_name(t);
    }
    if trim(t) == "white"@ {
        reveal_strlit("white");
        assert("white"@ != "black"@) by { assert("white"@[0] != "black"@[0]); }
        assert("white"@ != "green"@) by { assert("white"@[0] != "green"@[0]); }
        lemma_a_colour_name(t);
    }
    if trim(t) == "bright_white"@ {
        reveal_strlit("bright_white");
        reveal_strlit("white");
        assert(trim(t).take(7) =~= "bright_"@);
        assert(trim(t).skip(7) =~= "white"@);
        assert("white"@ != "black"@) by { assert("white"@[0] != "black"@[0]); }
        assert("white"@ != "green"@) by { assert("white"@[0] != "green"@[0]); }
        lemma_a_colour_name(t);
    }
}

} // verus!
