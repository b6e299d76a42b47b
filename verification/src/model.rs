//! The document model: a file is a sequence of lines, each a task or text
//! kept exactly as it was read.

use vstd::prelude::*;

use crate::date::{clock_text, iso_text, Date, Time};
use crate::strs::{
    byte_len, chars_of, is_space, push_char, push_chars, push_str, slice_chars, trim,
    trim_start,
};

verus! {

/// The completion stamp's mark: `✓2026-08-11`.
pub open spec fn done_mark() -> char {
    '\u{2713}'
}

#[derive(Debug, Clone, Copy, PartialEq, Eq, Structural)]
pub enum Ending {
    Lf,
    CrLf,
    Missing,
}

impl Ending {
    pub open spec fn text(self) -> Seq<char> {
        match self {
            Ending::Lf => seq!['\n'],
            Ending::CrLf => seq!['\r', '\n'],
            Ending::Missing => seq![],
        }
    }

    pub fn as_str(self) -> (r: &'static str)
        ensures
            r@ == self.text(),
    {
        proof {
            reveal_strlit("\n");
            reveal_strlit("\r\n");
            reveal_strlit("");
        }
        match self {
            Ending::Lf => "\n",
            Ending::CrLf => "\r\n",
            Ending::Missing => "",
        }
    }
}

#[derive(Debug, Clone, Copy, PartialEq, Eq, Structural)]
pub enum Priority {
    High,
    Med,
    Low,
}

impl Priority {
    /// The bare word, as `--prio` and `list --porcelain` spell it.
    pub open spec fn word(self) -> Seq<char> {
        match self {
            Priority::High => seq!['h', 'i', 'g', 'h'],
            Priority::Med => seq!['m', 'e', 'd'],
            Priority::Low => seq!['l', 'o', 'w'],
        }
    }

    /// As the file writes it: `!` and the word.
    pub open spec fn text(self) -> Seq<char> {
        seq!['!'] + self.word()
    }

    pub fn as_str(self) -> (r: &'static str)
        ensures
            r@ == self.text(),
    {
        proof {
            reveal_strlit("!high");
            reveal_strlit("!med");
            reveal_strlit("!low");
        }
        match self {
            Priority::High => "!high",
            Priority::Med => "!med",
            Priority::Low => "!low",
        }
    }

    /// The bare word, as `--prio` and `list --porcelain` spell it.
    pub fn name(self) -> (r: &'static str)
        ensures
            r@ == self.word(),
    {
        proof {
            reveal_strlit("high");
            reveal_strlit("med");
            reveal_strlit("low");
        }
        match self {
            Priority::High => "high",
            Priority::Med => "med",
            Priority::Low => "low",
        }
    }

    /// The priority whose bare word is exactly `name`.
    pub fn from_name(name: &str) -> (r: Option<Priority>)
        ensures
            r matches Some(p) ==> p.word() == name@,
            r is None ==> forall|p: Priority| p.word() != name@,
    {
        let v = chars_of(name);
        let high = chars_of("high");
        let med = chars_of("med");
        let low = chars_of("low");
        proof {
            reveal_strlit("high");
            reveal_strlit("med");
            reveal_strlit("low");
        }
        if crate::strs::same_chars(&v, &high) {
            Some(Priority::High)
        } else if crate::strs::same_chars(&v, &med) {
            Some(Priority::Med)
        } else if crate::strs::same_chars(&v, &low) {
            Some(Priority::Low)
        } else {
            proof {
                assert forall|p: Priority| p.word() != name@ by {
                    match p {
                        Priority::High => assert(p.word() =~= high@),
                        Priority::Med => assert(p.word() =~= med@),
                        Priority::Low => assert(p.word() =~= low@),
                    }
                }
            }
            None
        }
    }
}

/// The three states of a task: `- [ ]`, `- [x]` and `- [-]`.
#[derive(Debug, Clone, Copy, PartialEq, Eq, Structural)]
pub enum State {
    Open,
    Done,
    Cancelled,
}

impl State {
    /// The character written between the brackets.
    pub open spec fn mark(self) -> char {
        match self {
            State::Open => ' ',
            State::Done => 'x',
            State::Cancelled => '-',
        }
    }

    /// Whether `c` between the brackets reads as this state.
    pub open spec fn read_as(self, c: char) -> bool {
        match self {
            State::Open => c == ' ',
            State::Done => c == 'x' || c == 'X',
            State::Cancelled => c == '-',
        }
    }

    pub fn mark_char(self) -> (c: char)
        ensures
            c == self.mark(),
    {
        match self {
            State::Open => ' ',
            State::Done => 'x',
            State::Cancelled => '-',
        }
    }
}

#[derive(Debug, Clone, Copy, PartialEq, Eq, Structural)]
pub struct Due {
    pub date: Date,
    pub time: Option<Time>,
}

impl Due {
    pub open spec fn wf(self) -> bool {
        &&& self.date.wf()
        &&& self.time matches Some(t) ==> t.wf()
    }

    /// `@2026-08-12`, or `@2026-08-12 16:00` with a time.
    pub open spec fn text(self) -> Seq<char> {
        match self.time {
            Some(t) => seq!['@'] + iso_text(self.date) + seq![' '] + clock_text(t),
            None => seq!['@'] + iso_text(self.date),
        }
    }

    pub fn new(date: Date) -> (r: Due)
        ensures
            r.date == date,
            r.time is None,
    {
        Due { date, time: None }
    }

    pub fn push_text(self, s: &mut String)
        ensures
            final(s)@ == old(s)@ + self.text(),
    {
        push_char(s, '@');
        self.date.push_iso(s);
        match self.time {
            Some(t) => {
                push_char(s, ' ');
                t.push_clock(s);
            },
            None => {},
        }
        assert(final(s)@ =~= old(s)@ + self.text());
    }

    pub fn to_file_string(self) -> (r: String)
        ensures
            r@ == self.text(),
    {
        let mut s = String::new();
        self.push_text(&mut s);
        assert(s@ =~= self.text());
        s
    }
}

pub open spec fn views(v: Seq<String>) -> Seq<Seq<char>> {
    v.map_values(|s: String| s@)
}

/// ` #a #b`: every tag with its `#`, each after a space.
pub open spec fn tags_text(tags: Seq<Seq<char>>) -> Seq<char>
    decreases tags.len(),
{
    if tags.len() == 0 {
        seq![]
    } else {
        tags_text(tags.drop_last()) + seq![' ', '#'] + tags.last()
    }
}

/// A line as the tool writes a task it made itself.
pub open spec fn rendered(
    state: State,
    title: Seq<char>,
    due: Option<Due>,
    tags: Seq<Seq<char>>,
    priority: Option<Priority>,
) -> Seq<char> {
    seq!['-', ' ', '[', state.mark(), ']', ' '] + trim(title) + match due {
        Some(d) => seq![' '] + d.text(),
        None => seq![],
    } + tags_text(tags) + match priority {
        Some(p) => seq![' '] + p.text(),
        None => seq![],
    }
}

#[derive(Debug, Clone, PartialEq, Eq)]
pub struct Task {
    pub raw: String,
    pub state: State,
    pub title: String,
    pub due: Option<Due>,
    /// When it was finished: the `✓` stamp on the line.
    pub done_on: Option<Date>,
    pub tags: Vec<String>,
    pub priority: Option<Priority>,
    pub section: Option<String>,
    /// The list it came from, set only while several are open.
    pub file: Option<String>,
    /// While false, `raw` is authoritative and is written back untouched.
    pub dirty: bool,
    /// Index into `raw` of the character between the brackets.
    pub checkbox: usize,
    /// Where in `raw` the `@date` word the due date was read from stands.
    pub due_at: Option<(usize, usize)>,
    /// Where in `raw` the completion stamp stands.
    pub stamp_at: Option<(usize, usize)>,
}

/// A string that may be absent, as text.
pub open spec fn text_of(o: Option<String>) -> Option<Seq<char>> {
    match o {
        Some(s) => Some(s@),
        None => None,
    }
}

/// A task as plain values: every field, strings as their characters.
pub struct TaskView {
    pub raw: Seq<char>,
    pub state: State,
    pub title: Seq<char>,
    pub due: Option<Due>,
    pub done_on: Option<Date>,
    pub tags: Seq<Seq<char>>,
    pub priority: Option<Priority>,
    pub section: Option<Seq<char>>,
    pub file: Option<Seq<char>>,
    pub dirty: bool,
    pub checkbox: usize,
    pub due_at: Option<(usize, usize)>,
    pub stamp_at: Option<(usize, usize)>,
}

impl View for Task {
    type V = TaskView;

    open spec fn view(&self) -> TaskView {
        TaskView {
            raw: self.raw@,
            state: self.state,
            title: self.title@,
            due: self.due,
            done_on: self.done_on,
            tags: views(self.tags@),
            priority: self.priority,
            section: text_of(self.section),
            file: text_of(self.file),
            dirty: self.dirty,
            checkbox: self.checkbox,
            due_at: self.due_at,
            stamp_at: self.stamp_at,
        }
    }
}

impl Task {
    /// Everything the operations on a task rely on: the checkbox is where the
    /// line has it, the spans are inside the line and after the checkbox, and
    /// the dates are real.
    pub open spec fn wf(self) -> bool {
        let r = self.raw@;
        let c = self.checkbox as int;
        &&& 1 <= c
        &&& c + 1 < r.len()
        &&& r[c - 1] == '['
        &&& r[c + 1] == ']'
        &&& self.state.read_as(r[c])
        &&& (self.due matches Some(d) ==> d.wf())
        &&& (self.done_on matches Some(d) ==> d.wf())
        &&& (self.due_at matches Some((a, b)) ==> {
            &&& c + 2 <= a < b <= r.len()
            &&& r[a as int] == '@'
            &&& forall|k: int| a <= k < b ==> !is_space(#[trigger] r[k])
        })
        &&& (self.due is Some <==> self.due_at is Some)
        &&& (self.stamp_at matches Some((a, b)) ==> {
            &&& c + 2 <= a < b <= r.len()
            &&& r[a as int] == done_mark()
            &&& forall|k: int| a <= k < b ==> !is_space(#[trigger] r[k])
            &&& self.done_on is Some
        })
        &&& (self.stamp_at is None ==> self.done_on is None)
        &&& (self.due_at matches Some((a1, b1)) ==> self.stamp_at matches Some((a2, b2)) ==> (b1
            < a2 || b2 < a1))
    }

    pub open spec fn is_open(self) -> bool {
        self.state == State::Open
    }

    pub open spec fn is_done(self) -> bool {
        self.state == State::Done
    }

    /// Still owed, and its day has gone by.
    pub open spec fn overdue(self, today: Date) -> bool {
        self.is_open() && (self.due matches Some(d) && d.date.before(today))
    }

    /// What the body of the line is: everything after the checkbox, without
    /// the space in front.
    pub open spec fn body_spec(self) -> Seq<char> {
        trim_start(self.raw@.skip(self.checkbox as int + 2))
    }

    pub fn open(&self) -> (r: bool)
        ensures
            r == self.is_open(),
    {
        self.state == State::Open
    }

    pub fn done(&self) -> (r: bool)
        ensures
            r == self.is_done(),
    {
        self.state == State::Done
    }

    /// A finished or cancelled task is never overdue, however long ago it was
    /// due; one due today is not late yet.
    pub fn is_overdue(&self, today: Date) -> (r: bool)
        ensures
            r == self.overdue(today),
    {
        match self.due {
            Some(d) => self.state == State::Open && d.date.is_before(today),
            None => false,
        }
    }
}


/// The spans of text that are the tool's own rendering of a date: none of
/// them holds a space.
pub proof fn lemma_digits_no_space(n: nat)
    ensures
        forall|k: int| 0 <= k < crate::strs::digits(n).len() ==> !is_space(
            #[trigger] crate::strs::digits(n)[k],
        ),
        crate::strs::digits(n).len() >= 1,
    decreases n,
{
    if n >= 10 {
        lemma_digits_no_space(n / 10);
    }
}

pub proof fn lemma_padded_no_space(n: nat, w: nat)
    ensures
        forall|k: int| 0 <= k < crate::strs::padded(n, w).len() ==> !is_space(
            #[trigger] crate::strs::padded(n, w)[k],
        ),
    decreases w,
{
    lemma_digits_no_space(n);
    if crate::strs::digits(n).len() >= w || w == 0 {
    } else {
        lemma_padded_no_space(n, (w - 1) as nat);
        let p = crate::strs::padded(n, w);
        let q = crate::strs::padded(n, (w - 1) as nat);
        assert(p == seq!['0'] + q);
        assert forall|k: int| 0 <= k < p.len() implies !is_space(#[trigger] p[k]) by {
            if k > 0 {
                assert(p[k] == q[k - 1]);
            }
        }
    }
}

pub proof fn lemma_iso_no_space(d: Date)
    ensures
        forall|k: int| 0 <= k < iso_text(d).len() ==> !is_space(#[trigger] iso_text(d)[k]),
{
    lemma_padded_no_space(d.month as nat, 2);
    lemma_padded_no_space(d.day as nat, 2);
    lemma_padded_no_space(d.year as nat, 4);
    lemma_padded_no_space((-d.year) as nat, 4);
    lemma_digits_no_space(d.year as nat);
    let y = crate::date::year_text(d.year as int);
    assert forall|k: int| 0 <= k < y.len() implies !is_space(#[trigger] y[k]) by {
        if 0 <= d.year <= 9999 {
        } else if d.year > 9999 {
            if k > 0 {
                assert(y[k] == crate::strs::digits(d.year as nat)[k - 1]);
            }
        } else {
            if k > 0 {
                assert(y[k] == crate::strs::padded((-d.year) as nat, 4)[k - 1]);
            }
        }
    }
}

impl Task {
    /// A task the tool writes itself, in the tool's own shape.
    pub fn new(
        state: State,
        title: String,
        due: Option<Due>,
        tags: Vec<String>,
        priority: Option<Priority>,
    ) -> (t: Task)
        requires
            due matches Some(d) ==> d.wf(),
        ensures
            t.wf(),
            t.raw@ == rendered(state, title@, due, views(tags@), priority),
            t.state == state,
            t.title == title,
            t.due == due,
            t.tags == tags,
            t.priority == priority,
            t.done_on is None,
            t.section is None,
            t.file is None,
            !t.dirty,
            t.checkbox == 3,
    {
        let (raw, due_at) = render(state, title.as_str(), due, &tags, priority);
        let t = Task {
            raw,
            state,
            title,
            due,
            done_on: None,
            tags,
            priority,
            section: None,
            file: None,
            dirty: false,
            checkbox: 3,
            due_at,
            stamp_at: None,
        };
        t
    }

    /// The line rendered from the fields, ignoring how it was written.
    pub fn render_fields(&self) -> (r: String)
        requires
            self.due matches Some(d) ==> d.wf(),
        ensures
            r@ == rendered(self.state, self.title@, self.due, views(self.tags@), self.priority),
    {
        let (raw, _) = render(self.state, self.title.as_str(), self.due, &self.tags, self.priority);
        raw
    }

    /// The line as it goes back into the file: as it was read, unless it has
    /// been marked for rewriting.
    pub fn line(&self) -> (r: String)
        requires
            self.due matches Some(d) ==> d.wf(),
        ensures
            r@ == if self.dirty {
                rendered(self.state, self.title@, self.due, views(self.tags@), self.priority)
            } else {
                self.raw@
            },
    {
        if self.dirty {
            self.render_fields()
        } else {
            self.raw.clone()
        }
    }

    /// Everything after the checkbox: what the input field is pre-filled with,
    /// and what an edit replaces.
    pub fn body(&self) -> (r: &str)
        requires
            self.wf(),
        ensures
            r@ == self.body_spec(),
    {
        let v = chars_of(self.raw.as_str());
        assert(v@.len() == self.raw@.len());
        assert(self.checkbox + 1 < self.raw@.len());
        let n = v.len();
        assert(self.checkbox + 2 <= n);
        let from = self.checkbox + 2;
        let rest = slice_chars(&v, from, v.len());
        let lead = crate::strs::leading_space(&rest);
        assert(rest@.skip(lead as int) =~= v@.subrange(from + lead, v@.len() as int));
        self.raw.as_str().substring_char(from + lead, v.len())
    }

    /// One definition of "the same task": the list it is on while several
    /// are, its heading and its title. What the cursor holds on to across a
    /// reload and what a calendar UID is made of.
    pub fn identity(&self) -> (r: String)
        ensures
            r@ == identity_of(
                match self.file {
                    Some(f) => Some(f@),
                    None => None,
                },
                match self.section {
                    Some(s) => Some(s@),
                    None => None,
                },
                self.title@,
            ),
    {
        let mut s = String::new();
        match &self.file {
            Some(f) => {
                push_str(&mut s, f.as_str());
                push_char(&mut s, '\u{1}');
            },
            None => {},
        }
        match &self.section {
            Some(sec) => push_str(&mut s, sec.as_str()),
            None => {},
        }
        push_char(&mut s, '\u{1}');
        push_str(&mut s, self.title.as_str());
        assert(s@ =~= identity_of(
            match self.file {
                Some(f) => Some(f@),
                None => None,
            },
            match self.section {
                Some(s) => Some(s@),
                None => None,
            },
            self.title@,
        ));
        s
    }
}

/// `file`, a `\u{1}`, the heading, a `\u{1}` and the title; the file and its
/// separator only when there is a file.
pub open spec fn identity_of(
    file: Option<Seq<char>>,
    section: Option<Seq<char>>,
    title: Seq<char>,
) -> Seq<char> {
    let f = match file {
        Some(f) => f + seq!['\u{1}'],
        None => seq![],
    };
    let s = match section {
        Some(s) => s,
        None => seq![],
    };
    f + s + seq!['\u{1}'] + title
}

/// Builds a task's line and says where its `@date` word landed.
#[verifier::rlimit(40)]
fn render(
    state: State,
    title: &str,
    due: Option<Due>,
    tags: &Vec<String>,
    priority: Option<Priority>,
) -> (r: (String, Option<(usize, usize)>))
    requires
        due matches Some(d) ==> d.wf(),
    ensures
        r.0@ == rendered(state, title@, due, views(tags@), priority),
        r.0@.len() >= 5,
        r.0@[2] == '[',
        r.0@[3] == state.mark(),
        r.0@[4] == ']',
        r.1 is Some <==> due is Some,
        r.1 matches Some((a, b)) ==> 5 <= a < b <= r.0@.len() && r.0@[a as int] == '@' && forall|
            k: int,
        | a <= k < b ==> !is_space(#[trigger] r.0@[k]),
{
    let mut s = String::new();
    push_str(&mut s, "- [");
    push_char(&mut s, state.mark_char());
    push_str(&mut s, "] ");
    proof {
        reveal_strlit("- [");
        reveal_strlit("] ");
    }
    let ghost head = s@;
    assert(head =~= seq!['-', ' ', '[', state.mark(), ']', ' ']);
    let t = crate::strs::trimmed(&chars_of(title));
    push_chars(&mut s, &t);
    let mut due_at: Option<(usize, usize)> = None;
    match due {
        Some(d) => {
            push_char(&mut s, ' ');
            let a = s.as_str().unicode_len();
            let ghost pre = s@;
            push_char(&mut s, '@');
            d.date.push_iso(&mut s);
            let b = s.as_str().unicode_len();
            proof {
                lemma_iso_no_space(d.date);
                assert(s@ == pre.push('@') + iso_text(d.date));
                assert forall|k: int| a <= k < b implies !is_space(#[trigger] s@[k]) by {
                    if k > a {
                        assert(s@[k] == iso_text(d.date)[k - a - 1]);
                    }
                }
            }
            match d.time {
                Some(t) => {
                    push_char(&mut s, ' ');
                    t.push_clock(&mut s);
                },
                None => {},
            }
            due_at = Some((a, b));
        },
        None => {},
    }
    let ghost mid = s@;
    let mut i: usize = 0;
    while i < tags.len()
        invariant
            i <= tags.len(),
            s@ == mid + tags_text(views(tags@).take(i as int)),
        decreases tags.len() - i,
    {
        push_char(&mut s, ' ');
        push_char(&mut s, '#');
        push_str(&mut s, tags[i].as_str());
        assert(views(tags@).take(i + 1).drop_last() =~= views(tags@).take(i as int));
        i += 1;
    }
    assert(views(tags@).take(tags.len() as int) =~= views(tags@));
    match priority {
        Some(p) => {
            push_char(&mut s, ' ');
            push_str(&mut s, p.as_str());
        },
        None => {},
    }
    assert(s@ =~= rendered(state, title@, due, views(tags@), priority));
    (s, due_at)
}


#[derive(Debug, Clone, PartialEq, Eq)]
pub enum Item {
    Task(Task),
    Text(String),
}

#[derive(Debug, Clone, PartialEq, Eq)]
pub struct Line {
    pub item: Item,
    pub ending: Ending,
}

impl Line {
    /// What goes into the file for this line, before its ending.
    pub open spec fn shown(self) -> Seq<char> {
        match self.item {
            Item::Task(t) => if t.dirty {
                rendered(t.state, t.title@, t.due, views(t.tags@), t.priority)
            } else {
                t.raw@
            },
            Item::Text(s) => s@,
        }
    }

    pub open spec fn wf(self) -> bool {
        match self.item {
            Item::Task(t) => t.wf(),
            Item::Text(_) => true,
        }
    }

    pub fn text(&self) -> (r: String)
        requires
            self.wf(),
        ensures
            r@ == self.shown(),
    {
        match &self.item {
            Item::Task(t) => t.line(),
            Item::Text(s) => s.clone(),
        }
    }
}

/// A line as plain values.
pub enum ItemView {
    Task(TaskView),
    Text(Seq<char>),
}

pub struct LineView {
    pub item: ItemView,
    pub ending: Ending,
}

impl View for Line {
    type V = LineView;

    open spec fn view(&self) -> LineView {
        LineView {
            item: match self.item {
                Item::Task(t) => ItemView::Task(t@),
                Item::Text(s) => ItemView::Text(s@),
            },
            ending: self.ending,
        }
    }
}

impl Line {
    /// A line-for-line copy.
    pub fn copied(&self) -> (r: Line)
        ensures
            r@ == self@,
            r.wf() == self.wf(),
    {
        let item = match &self.item {
            Item::Task(t) => Item::Task(t.copied()),
            Item::Text(s) => Item::Text(s.clone()),
        };
        Line { item, ending: self.ending }
    }
}

/// The whole file, line by line, as the writer will put it back.
pub open spec fn doc_text(lines: Seq<Line>) -> Seq<char>
    decreases lines.len(),
{
    if lines.len() == 0 {
        seq![]
    } else {
        doc_text(lines.drop_last()) + lines.last().shown() + lines.last().ending.text()
    }
}

#[derive(Debug, Clone, Default, PartialEq, Eq)]
pub struct Doc {
    pub lines: Vec<Line>,
}

impl Doc {
    pub open spec fn wf(self) -> bool {
        forall|i: int| 0 <= i < self.lines@.len() ==> (#[trigger] self.lines@[i]).wf()
    }
}


/// The stamp word's span together with one space beside it: the one in
/// front when there is one, the one after it otherwise.
pub open spec fn cut_span(r: Seq<char>, a: int, b: int) -> (int, int) {
    if a > 0 && is_space(r[a - 1]) {
        (a - 1, b)
    } else if b < r.len() && is_space(r[b]) {
        (a, b + 1)
    } else {
        (a, b)
    }
}

pub open spec fn without(r: Seq<char>, x: (int, int)) -> Seq<char> {
    r.take(x.0) + r.skip(x.1)
}

/// ` ✓2026-08-11`, as ticking appends it.
pub open spec fn stamp_text(d: Date) -> Seq<char> {
    seq![' ', done_mark()] + iso_text(d)
}

/// The line with its completion stamp taken out, if it has one.
pub open spec fn unstamped(t: Task) -> Seq<char> {
    match t.stamp_at {
        Some((a, b)) => without(t.raw@, cut_span(t.raw@, a as int, b as int)),
        None => t.raw@,
    }
}

/// What `set_state` makes of the line: the checkbox character changed, the
/// old stamp taken out with the space in front of it, and a fresh stamp on
/// the end when the task is being ticked.
pub open spec fn restated(t: Task, to: State, today: Date) -> Seq<char> {
    if to == t.state {
        t.raw@
    } else {
        let base = unstamped(t).update(t.checkbox as int, to.mark());
        if to == State::Done {
            base + stamp_text(today)
        } else {
            base
        }
    }
}

/// What `postpone` makes of the line: the `@date` word rewritten in place,
/// or one appended when there was none.
pub open spec fn postponed(t: Task, date: Date) -> Seq<char> {
    match t.due_at {
        Some((a, b)) => t.raw@.take(a as int) + seq!['@'] + iso_text(date) + t.raw@.skip(b as int),
        None => t.raw@ + seq![' ', '@'] + iso_text(date),
    }
}

/// Where a fresh stamp lands: after the line and the space in front of it.
pub open spec fn restamped(t: Task, to: State, today: Date) -> Option<(usize, usize)> {
    if to == t.state {
        t.stamp_at
    } else if to == State::Done {
        let n = unstamped(t).len();
        Some(((n + 1) as usize, (n + 2 + iso_text(today).len()) as usize))
    } else {
        None
    }
}

/// Everything `set_state` promises of the task it leaves behind.
/// What retyping `old` with freshly captured `fields` makes: everything up
/// to and including the checkbox kept, the body and its fields the new ones.
pub open spec fn retype_post(old: Task, fields: Task, new: Task) -> bool {
    &&& new.wf()
    &&& new.raw@ == old.raw@.take(old.checkbox + 2) + seq![' '] + fields.body_spec()
    &&& new.title == fields.title
    &&& new.due == fields.due
    &&& views(new.tags@) == views(fields.tags@)
    &&& new.priority == fields.priority
    &&& new.done_on == fields.done_on
    &&& new.state == old.state
    &&& text_of(new.section) == text_of(old.section)
    &&& text_of(new.file) == text_of(old.file)
    &&& new.dirty == old.dirty
    &&& new.checkbox == old.checkbox
}

/// What putting `old` off to `date` makes: the date moved, its time and
/// everything else kept.
pub open spec fn postpone_post(old: Task, date: Date, new: Task) -> bool {
    &&& new.wf()
    &&& new.raw@ == postponed(old, date)
    &&& new.due == Some(
        Due {
            date,
            time: match old.due {
                Some(d) => d.time,
                None => None,
            },
        },
    )
    &&& new.state == old.state
    &&& new.done_on == old.done_on
    &&& new.title@ == old.title@
    &&& views(new.tags@) == views(old.tags@)
    &&& new.priority == old.priority
    &&& text_of(new.section) == text_of(old.section)
    &&& text_of(new.file) == text_of(old.file)
    &&& new.dirty == old.dirty
    &&& new.checkbox == old.checkbox
}

pub open spec fn restate_post(old: Task, new: Task, to: State, today: Date) -> bool {
    &&& new.wf()
    &&& new.raw@ == restated(old, to, today)
    &&& new.state == to
    &&& new.stamp_at == restamped(old, to, today)
    &&& new.done_on == if to == old.state {
        old.done_on
    } else if to == State::Done {
        Some(today)
    } else {
        None
    }
    &&& new.title@ == old.title@
    &&& new.due == old.due
    &&& views(new.tags@) == views(old.tags@)
    &&& new.priority == old.priority
    &&& text_of(new.section) == text_of(old.section)
    &&& text_of(new.file) == text_of(old.file)
    &&& new.dirty == old.dirty
    &&& new.checkbox == old.checkbox
}

fn cut_out(v: &Vec<char>, x: usize, y: usize) -> (r: Vec<char>)
    requires
        x <= y <= v.len(),
    ensures
        r@ == v@.take(x as int) + v@.skip(y as int),
{
    let mut r = slice_chars(v, 0, x);
    let tail = slice_chars(v, y, v.len());
    let mut i: usize = 0;
    let ghost head = r@;
    while i < tail.len()
        invariant
            i <= tail.len(),
            r@ == head + tail@.take(i as int),
        decreases tail.len() - i,
    {
        r.push(tail[i]);
        assert(tail@.take(i + 1) =~= tail@.take(i as int).push(tail@[i as int]));
        i += 1;
    }
    assert(tail@.take(tail.len() as int) =~= tail@);
    assert(v@.subrange(0, x as int) =~= v@.take(x as int));
    assert(v@.subrange(y as int, v@.len() as int) =~= v@.skip(y as int));
    r
}

fn append_chars(v: &mut Vec<char>, t: &Vec<char>)
    ensures
        final(v)@ == old(v)@ + t@,
{
    let mut i: usize = 0;
    while i < t.len()
        invariant
            i <= t.len(),
            v@ == old(v)@ + t@.take(i as int),
        decreases t.len() - i,
    {
        v.push(t[i]);
        assert(t@.take(i + 1) =~= t@.take(i as int).push(t@[i as int]));
        i += 1;
    }
    assert(t@.take(t.len() as int) =~= t@);
}

impl Task {
    /// The line without its stamp, and where the due date's word is in it.
    #[verifier::rlimit(40)]
    fn unstamped_chars(&self) -> (r: (Vec<char>, Option<(usize, usize)>))
        requires
            self.wf(),
        ensures
            r.0@ == unstamped(*self),
            self.checkbox + 1 < r.0@.len(),
            r.0@[self.checkbox - 1] == '[',
            r.0@[self.checkbox + 1] == ']',
            r.0@[self.checkbox as int] == self.raw@[self.checkbox as int],
            r.0@.len() <= self.raw@.len(),
            r.1 is Some <==> self.due_at is Some,
            r.1 matches Some((a, b)) ==> {
                &&& self.checkbox + 2 <= a < b <= r.0@.len()
                &&& r.0@[a as int] == '@'
                &&& forall|k: int| a <= k < b ==> !is_space(#[trigger] r.0@[k])
            },
    {
        let v = chars_of(self.raw.as_str());
        let ghost r = v@;
        let c = self.checkbox;
        match self.stamp_at {
            Some((a, b)) => {
                let (x, y) = if a > 0 && crate::strs::space(v[a - 1]) {
                    (a - 1, b)
                } else if b < v.len() && crate::strs::space(v[b]) {
                    (a, b + 1)
                } else {
                    (a, b)
                };
                assert((x as int, y as int) == cut_span(r, a as int, b as int));
                assert(x > c + 1) by {
                    assert(r[c + 1] == ']');
                }
                let w = cut_out(&v, x, y);
                assert(w@[c - 1] == r[c - 1]);
                assert(w@[c as int] == r[c as int]);
                assert(w@[c + 1] == r[c + 1]);
                let due_at = match self.due_at {
                    Some((d1, d2)) => {
                        if d1 >= y {
                            proof {
                                assert(w@[d1 - (y - x)] == r[d1 as int]);
                                assert forall|k: int|
                                    d1 - (y - x) <= k < d2 - (y - x) implies !is_space(
                                    #[trigger] w@[k],
                                ) by {
                                    assert(w@[k] == r[k + (y - x)]);
                                }
                            }
                            Some((d1 - (y - x), d2 - (y - x)))
                        } else {
                            proof {
                                assert(d2 <= x);
                                assert(w@[d1 as int] == r[d1 as int]);
                                assert forall|k: int| d1 <= k < d2 implies !is_space(
                                    #[trigger] w@[k],
                                ) by {
                                    assert(w@[k] == r[k]);
                                }
                            }
                            Some((d1, d2))
                        }
                    },
                    None => None,
                };
                (w, due_at)
            },
            None => (v, self.due_at),
        }
    }

    /// Moves the task to `to`. One character between the brackets changes;
    /// the stamp of an earlier tick goes, with the space in front of it, and
    /// ticking appends ` ✓` and today's date. Nothing else on the line moves.
    #[verifier::rlimit(40)]
    pub fn set_state(&mut self, to: State, today: Date)
        requires
            old(self).wf(),
            today.wf(),
            old(self).raw@.len() + 32 < usize::MAX,
        ensures
            restate_post(*old(self), *final(self), to, today),
    {
        if self.state == to {
            return;
        }
        let c = self.checkbox;
        let (mut v, due_at) = self.unstamped_chars();
        v.set(c, to.mark_char());
        let ghost marked = v@;
        let mut stamp_at: Option<(usize, usize)> = None;
        let mut done_on: Option<Date> = None;
        if to == State::Done {
            let n = v.len();
            let iso = chars_of(today.iso().as_str());
            let mut tail: Vec<char> = Vec::new();
            tail.push(' ');
            tail.push('\u{2713}');
            append_chars(&mut tail, &iso);
            assert(tail@ =~= stamp_text(today));
            append_chars(&mut v, &tail);
            let m = v.len();
            stamp_at = Some((n + 1, m));
            done_on = Some(today);
            proof {
                lemma_iso_no_space(today);
                assert(v@[n + 1] == done_mark());
                assert forall|k: int| n + 1 <= k < m implies !is_space(#[trigger] v@[k]) by {
                    if k > n + 1 {
                        assert(v@[k] == iso_text(today)[k - n - 2]);
                    }
                }
                assert forall|k: int| 0 <= k < n implies #[trigger] v@[k] == marked[k] by {}
                match due_at {
                    Some((d1, d2)) => {
                        assert(v@[d1 as int] == marked[d1 as int]);
                        assert forall|k: int| d1 <= k < d2 implies !is_space(#[trigger] v@[k]) by {
                            assert(v@[k] == marked[k]);
                        }
                    },
                    None => {},
                }
            }
        }
        self.stamp_at = stamp_at;
        self.done_on = done_on;
        self.due_at = due_at;
        self.raw = crate::strs::string_of(&v);
        self.state = to;
    }
}


/// Ticking a task and putting it back leaves the line exactly as it was: the
/// checkbox character returns and the stamp goes with the space it came
/// with. For a task that carries no stamp and is not already done.
pub proof fn law_tick_and_back(t: Task, today: Date, ticked: Task, back: Task)
    requires
        t.wf(),
        today.wf(),
        t.stamp_at is None,
        t.state != State::Done,
        t.raw@.len() + 32 < usize::MAX,
        restate_post(t, ticked, State::Done, today),
        restate_post(ticked, back, t.state, today),
    ensures
        back.raw@ == t.raw@,
        back.state == t.state,
        back.done_on is None,
        back.stamp_at is None,
{
    let r = t.raw@;
    let c = t.checkbox as int;
    let n: int = r.len() as int;
    let tr = ticked.raw@;
    assert(tr == r.update(c, 'x') + stamp_text(today));
    assert(tr[n] == ' ');
    crate::date::lemma_iso_len(today);
    assert(unstamped(t) == r);
    assert(tr.len() == n + 2 + iso_text(today).len());
    assert(ticked.stamp_at == Some(((n + 1) as usize, tr.len() as usize)));
    assert(cut_span(tr, n + 1, tr.len() as int) == (n, tr.len() as int));
    assert(cut_span(tr, (n + 1) as usize as int, tr.len() as usize as int) == (n, tr.len() as int));
    assert(unstamped(ticked) =~= r.update(c, 'x'));
    assert(r.update(c, 'x').update(c, t.state.mark()) =~= r);
}


impl Task {
    /// Moves the date and nothing else: the `@date` word is rewritten where
    /// it stands and keeps its time; an undated task has one appended.
    #[verifier::rlimit(40)]
    pub fn postpone(&mut self, date: Date)
        requires
            old(self).wf(),
            date.wf(),
            old(self).raw@.len() + 32 < usize::MAX,
        ensures
            postpone_post(*old(self), date, *final(self)),
    {
        let v = chars_of(self.raw.as_str());
        let ghost r = v@;
        let iso = chars_of(date.iso().as_str());
        proof {
            crate::date::lemma_iso_len(date);
            lemma_iso_no_space(date);
        }
        let mut word: Vec<char> = Vec::new();
        word.push('@');
        append_chars(&mut word, &iso);
        assert(word@ =~= seq!['@'] + iso_text(date));
        let time = match self.due {
            Some(d) => d.time,
            None => None,
        };
        match self.due_at {
            Some((a, b)) => {
                let head = slice_chars(&v, 0, a);
                let tail = slice_chars(&v, b, v.len());
                let mut w = head;
                append_chars(&mut w, &word);
                let nb = w.len();
                append_chars(&mut w, &tail);
                assert(w@ =~= r.take(a as int) + seq!['@'] + iso_text(date) + r.skip(b as int));
                let delta_new = nb - a;
                let stamp_at = match self.stamp_at {
                    Some((s1, s2)) => {
                        if s1 > b {
                            proof {
                                assert(w@[s1 - b + nb] == r[s1 as int]);
                                assert forall|k: int| s1 - b + nb <= k < s2 - b + nb implies !is_space(
                                    #[trigger] w@[k],
                                ) by {
                                    assert(w@[k] == r[k + b - nb]);
                                }
                            }
                            Some((s1 - b + nb, s2 - b + nb))
                        } else {
                            proof {
                                assert(s2 < a);
                                assert(w@[s1 as int] == r[s1 as int]);
                                assert forall|k: int| s1 <= k < s2 implies !is_space(#[trigger] w@[k]) by {
                                    assert(w@[k] == r[k]);
                                }
                            }
                            Some((s1, s2))
                        }
                    },
                    None => None,
                };
                proof {
                    let c = self.checkbox as int;
                    assert(w@[c - 1] == r[c - 1]);
                    assert(w@[c] == r[c]);
                    assert(w@[c + 1] == r[c + 1]);
                    assert(w@[a as int] == '@');
                    assert forall|k: int| a <= k < nb implies !is_space(#[trigger] w@[k]) by {
                        if k > a {
                            assert(w@[k] == iso_text(date)[k - a - 1]);
                        }
                    }
                }
                self.raw = crate::strs::string_of(&w);
                self.due_at = Some((a, nb));
                self.stamp_at = stamp_at;
            },
            None => {
                let mut w = v;
                let n = w.len();
                w.push(' ');
                let a = w.len();
                append_chars(&mut w, &word);
                let nb = w.len();
                assert(w@ =~= r + seq![' ', '@'] + iso_text(date));
                proof {
                    let c = self.checkbox as int;
                    assert(w@[c - 1] == r[c - 1]);
                    assert(w@[c] == r[c]);
                    assert(w@[c + 1] == r[c + 1]);
                    assert(w@[a as int] == '@');
                    assert forall|k: int| a <= k < nb implies !is_space(#[trigger] w@[k]) by {
                        if k > a {
                            assert(w@[k] == iso_text(date)[k - a - 1]);
                        }
                    }
                    match self.stamp_at {
                        Some((s1, s2)) => {
                            assert(w@[s1 as int] == r[s1 as int]);
                            assert forall|k: int| s1 <= k < s2 implies !is_space(#[trigger] w@[k]) by {
                                assert(w@[k] == r[k]);
                            }
                        },
                        None => {},
                    }
                }
                self.raw = crate::strs::string_of(&w);
                self.due_at = Some((a, nb));
            },
        }
        self.due = Some(Due { date, time });
    }

    /// Swaps the body for a freshly captured one and keeps everything up to
    /// and including the checkbox byte for byte: the indentation, the bullet,
    /// and whether the box is ticked. A nested task stays nested.
    #[verifier::rlimit(40)]
    pub fn retype(&mut self, fields: Task)
        requires
            old(self).wf(),
            fields.wf(),
            old(self).raw@.len() + fields.raw@.len() + 32 < usize::MAX,
        ensures
            retype_post(*old(self), fields, *final(self)),
    {
        let v = chars_of(self.raw.as_str());
        let f = chars_of(fields.raw.as_str());
        let ghost r = v@;
        let ghost fr = f@;
        let c = self.checkbox;
        assert(c + 2 <= v.len());
        let from = fields.checkbox + 2;
        assert(from <= f.len());
        let rest = slice_chars(&f, from, f.len());
        let lead = crate::strs::leading_space(&rest);
        let p = from + lead;
        let body = slice_chars(&f, p, f.len());
        assert(body@ =~= fields.body_spec());
        let mut w = slice_chars(&v, 0, c + 2);
        w.push(' ');
        let q = w.len();
        append_chars(&mut w, &body);
        assert(w@ =~= r.take(c + 2) + seq![' '] + fields.body_spec());
        let due_at = match fields.due_at {
            Some((a, b)) => {
                proof {
                    if a < p {
                        assert(rest@[a - from] == fr[a as int]);
                    }
                    assert(w@[a - p + q] == fr[a as int]);
                    assert forall|k: int| a - p + q <= k < b - p + q implies !is_space(
                        #[trigger] w@[k],
                    ) by {
                        assert(w@[k] == fr[k - q + p]);
                    }
                }
                Some((a - p + q, b - p + q))
            },
            None => None,
        };
        let stamp_at = match fields.stamp_at {
            Some((a, b)) => {
                proof {
                    if a < p {
                        assert(rest@[a - from] == fr[a as int]);
                    }
                    assert(w@[a - p + q] == fr[a as int]);
                    assert forall|k: int| a - p + q <= k < b - p + q implies !is_space(
                        #[trigger] w@[k],
                    ) by {
                        assert(w@[k] == fr[k - q + p]);
                    }
                }
                Some((a - p + q, b - p + q))
            },
            None => None,
        };
        proof {
            assert(w@[c - 1] == r[c - 1]);
            assert(w@[c as int] == r[c as int]);
            assert(w@[c + 1] == r[c + 1]);
        }
        self.raw = crate::strs::string_of(&w);
        self.title = fields.title;
        self.due = fields.due;
        self.tags = fields.tags;
        self.priority = fields.priority;
        self.done_on = fields.done_on;
        self.due_at = due_at;
        self.stamp_at = stamp_at;
    }
}


impl Task {
    /// A field-for-field copy.
    pub fn copied(&self) -> (r: Task)
        ensures
            r.raw == self.raw,
            r.state == self.state,
            r.title == self.title,
            r.due == self.due,
            r.done_on == self.done_on,
            r.tags@ == self.tags@,
            r.priority == self.priority,
            r.section == self.section,
            r.file == self.file,
            r.dirty == self.dirty,
            r.checkbox == self.checkbox,
            r.due_at == self.due_at,
            r.stamp_at == self.stamp_at,
            r@ == self@,
    {
        let mut tags: Vec<String> = Vec::new();
        let mut i: usize = 0;
        while i < self.tags.len()
            invariant
                i <= self.tags@.len(),
                tags@ == self.tags@.take(i as int),
            decreases self.tags@.len() - i,
        {
            tags.push(self.tags[i].clone());
            assert(tags@ =~= self.tags@.take(i + 1));
            i += 1;
        }
        assert(self.tags@.take(self.tags@.len() as int) =~= self.tags@);
        let section = match &self.section {
            Some(s) => Some(s.clone()),
            None => None,
        };
        let file = match &self.file {
            Some(f) => Some(f.clone()),
            None => None,
        };
        let r = Task {
            raw: self.raw.clone(),
            state: self.state,
            title: self.title.clone(),
            due: self.due,
            done_on: self.done_on,
            tags,
            priority: self.priority,
            section,
            file,
            dirty: self.dirty,
            checkbox: self.checkbox,
            due_at: self.due_at,
            stamp_at: self.stamp_at,
        };
        assert(views(r.tags@) =~= views(self.tags@));
        r
    }
}

/// What `Doc::find_open` found.
#[derive(Debug, Clone, PartialEq, Eq)]
pub enum Lookup {
    /// The index into `Doc::lines`, not a task number: the caller has to
    /// reach the same line to change it.
    One(usize),
    /// Nothing matched at all.
    NoMatch,
    /// The candidate titles, in file order.
    Several(Vec<String>),
    /// Matched, but there is nothing left to do to it.
    AlreadyDone(String),
}

/// The tasks of a document, in file order.
pub open spec fn doc_tasks(lines: Seq<Line>) -> Seq<Task>
    decreases lines.len(),
{
    if lines.len() == 0 {
        seq![]
    } else {
        let rest = doc_tasks(lines.drop_last());
        match lines.last().item {
            Item::Task(t) => rest.push(t),
            Item::Text(_) => rest,
        }
    }
}

/// A title matches when the search, lowercased, is inside the lowercased
/// title.
pub open spec fn hit(t: Task, needle: Seq<char>) -> bool {
    crate::strs::has_infix(crate::strs::lower_case(t.title@), needle)
}

/// The lines holding open tasks that match, in file order.
pub open spec fn open_hits(lines: Seq<Line>, needle: Seq<char>) -> Seq<int>
    decreases lines.len(),
{
    if lines.len() == 0 {
        seq![]
    } else {
        let rest = open_hits(lines.drop_last(), needle);
        match lines.last().item {
            Item::Task(t) => if t.is_open() && hit(t, needle) {
                rest.push(lines.len() - 1)
            } else {
                rest
            },
            Item::Text(_) => rest,
        }
    }
}

/// The title of the first finished task that matches.
pub open spec fn first_done_hit(lines: Seq<Line>, needle: Seq<char>) -> Option<Seq<char>>
    decreases lines.len(),
{
    if lines.len() == 0 {
        None
    } else {
        match first_done_hit(lines.drop_last(), needle) {
            Some(t) => Some(t),
            None => match lines.last().item {
                Item::Task(t) => if t.is_done() && hit(t, needle) {
                    Some(t.title@)
                } else {
                    None
                },
                Item::Text(_) => None,
            },
        }
    }
}

pub open spec fn titles_at(lines: Seq<Line>, at: Seq<int>) -> Seq<Seq<char>> {
    at.map_values(
        |i: int|
            match lines[i].item {
                Item::Task(t) => t.title@,
                Item::Text(s) => s@,
            },
    )
}

/// Every open hit names a line of the document.
pub proof fn lemma_open_hits(lines: Seq<Line>, needle: Seq<char>)
    ensures
        forall|k: int| 0 <= k < open_hits(lines, needle).len() ==> 0 <= #[trigger] open_hits(lines, needle)[k] < lines.len(),
    decreases lines.len(),
{
    if lines.len() > 0 {
        let rest = open_hits(lines.drop_last(), needle);
        lemma_open_hits(lines.drop_last(), needle);
        assert forall|k: int| 0 <= k < open_hits(lines, needle).len() implies 0
            <= #[trigger] open_hits(lines, needle)[k] < lines.len() by {
            if k < rest.len() {
                assert(open_hits(lines, needle)[k] == rest[k]);
            }
        }
    }
}

/// The line just after the last task, or 0 when there is no task at all.
pub open spec fn after_last_task(lines: Seq<Line>) -> int
    decreases lines.len(),
{
    if lines.len() == 0 {
        0
    } else if lines.last().item is Task {
        lines.len() as int
    } else {
        after_last_task(lines.drop_last())
    }
}

/// The line a task should be inserted at: after the last task, or at the
/// end when there is none.
pub open spec fn insertion_point(lines: Seq<Line>) -> int {
    if after_last_task(lines) == 0 {
        lines.len() as int
    } else {
        after_last_task(lines)
    }
}

proof fn lemma_after_last_task(lines: Seq<Line>)
    ensures
        0 <= after_last_task(lines) <= lines.len(),
        after_last_task(lines) > 0 ==> lines[after_last_task(lines) - 1].item is Task,
        forall|i: int| after_last_task(lines) <= i < lines.len() ==> #[trigger] lines[i].item is Text,
    decreases lines.len(),
{
    if lines.len() > 0 && !(lines.last().item is Task) {
        lemma_after_last_task(lines.drop_last());
        assert forall|i: int| after_last_task(lines) <= i < lines.len() implies #[trigger] lines[i].item is Text by {
            if i < lines.len() - 1 {
                assert(lines[i] == lines.drop_last()[i]);
            }
        }
    }
}

/// `lines` with `task` inserted after the last task, or at the end when
/// there is none, the line before it given an ending if it had none.
pub open spec fn pushed(lines: Seq<Line>, task: Task) -> Seq<Line> {
    let at = insertion_point(lines);
    let fixed = if at > 0 && lines[at - 1].ending == Ending::Missing {
        lines.update(at - 1, Line { ending: Ending::Lf, ..lines[at - 1] })
    } else {
        lines
    };
    fixed.insert(at, Line { item: Item::Task(task), ending: Ending::Lf })
}

/// Pushing a whole task keeps a whole document whole.
pub proof fn lemma_pushed_wf(lines: Seq<Line>, task: Task)
    requires
        forall|i: int| 0 <= i < lines.len() ==> (#[trigger] lines[i]).wf(),
        task.wf(),
    ensures
        forall|i: int| 0 <= i < pushed(lines, task).len() ==> (#[trigger] pushed(lines, task)[i]).wf(),
{
    lemma_after_last_task(lines);
    let at = insertion_point(lines);
    let fixed = if at > 0 && lines[at - 1].ending == Ending::Missing {
        lines.update(at - 1, Line { ending: Ending::Lf, ..lines[at - 1] })
    } else {
        lines
    };
    assert forall|i: int| 0 <= i < fixed.len() implies (#[trigger] fixed[i]).wf() by {
        assert(lines[i].wf());
    }
    assert forall|i: int| 0 <= i < pushed(lines, task).len() implies (#[trigger] pushed(lines, task)[i]).wf() by {
        if i < at {
            assert(pushed(lines, task)[i] == fixed[i]);
        } else if i > at {
            assert(pushed(lines, task)[i] == fixed[i - 1]);
        }
    }
}

impl View for Doc {
    type V = Seq<LineView>;

    open spec fn view(&self) -> Seq<LineView> {
        self.lines@.map_values(|l: Line| l@)
    }
}

/// The first line holding a task written exactly `raw`.
pub open spec fn line_of_raw(lines: Seq<Line>, raw: Seq<char>, k: int) -> Option<int>
    decreases lines.len() - k,
{
    if k < 0 || k >= lines.len() {
        None
    } else if lines[k].item matches Item::Task(t) && t.raw@ == raw {
        Some(k)
    } else {
        line_of_raw(lines, raw, k + 1)
    }
}

pub proof fn lemma_line_of_raw(lines: Seq<Line>, raw: Seq<char>, k: int)
    requires
        0 <= k,
    ensures
        line_of_raw(lines, raw, k) matches Some(i) ==> k <= i < lines.len() && lines[i].item is Task
            && lines[i].item->Task_0.raw@ == raw,
        line_of_raw(lines, raw, k) is None ==> forall|j: int| k <= j < lines.len() ==> !(
        #[trigger] lines[j].item matches Item::Task(t) && t.raw@ == raw),
    decreases lines.len() - k,
{
    if k < lines.len() && !(lines[k].item matches Item::Task(t) && t.raw@ == raw) {
        lemma_line_of_raw(lines, raw, k + 1);
    }
}

impl Doc {
    /// A document-for-document copy.
    pub fn copied(&self) -> (r: Doc)
        ensures
            r@ == self@,
            r.wf() == self.wf(),
    {
        let mut lines: Vec<Line> = Vec::new();
        let mut i: usize = 0;
        while i < self.lines.len()
            invariant
                i <= self.lines@.len(),
                lines@.len() == i,
                forall|k: int| 0 <= k < i ==> (#[trigger] lines@[k])@ == self.lines@[k]@ && lines@[k].wf() == self.lines@[k].wf(),
            decreases self.lines@.len() - i,
        {
            lines.push(self.lines[i].copied());
            i += 1;
        }
        let r = Doc { lines };
        assert(r@ =~= self@);
        proof {
            if self.wf() {
                assert forall|k: int| 0 <= k < r.lines@.len() implies (#[trigger] r.lines@[k]).wf() by {
                    assert(self.lines@[k].wf());
                }
            }
            if r.wf() {
                assert forall|k: int| 0 <= k < self.lines@.len() implies (#[trigger] self.lines@[k]).wf() by {
                    assert(r.lines@[k].wf());
                }
            }
        }
        r
    }

    /// The line holding the task written exactly `raw`: how a row on screen
    /// is found again in the document it came from.
    pub fn line_of(&self, raw: &str) -> (r: Option<usize>)
        ensures
            match r {
                Some(i) => line_of_raw(self.lines@, raw@, 0) == Some(i as int),
                None => line_of_raw(self.lines@, raw@, 0) is None,
            },
    {
        let want = chars_of(raw);
        let mut k: usize = 0;
        while k < self.lines.len()
            invariant
                want@ == raw@,
                line_of_raw(self.lines@, raw@, 0) == line_of_raw(self.lines@, raw@, k as int),
            decreases self.lines@.len() - k,
        {
            match &self.lines[k].item {
                Item::Task(t) => {
                    if crate::strs::same_chars(&chars_of(t.raw.as_str()), &want) {
                        return Some(k);
                    }
                },
                Item::Text(_) => {},
            }
            k += 1;
        }
        None
    }
}

impl Doc {
    pub fn tasks(&self) -> (r: Vec<&Task>)
        ensures
            r@.len() == doc_tasks(self.lines@).len(),
            forall|i: int| 0 <= i < r@.len() ==> *(#[trigger] r@[i]) == doc_tasks(self.lines@)[i],
    {
        let mut r: Vec<&Task> = Vec::new();
        let mut i: usize = 0;
        while i < self.lines.len()
            invariant
                i <= self.lines@.len(),
                r@.len() == doc_tasks(self.lines@.take(i as int)).len(),
                forall|k: int| 0 <= k < r@.len() ==> *(#[trigger] r@[k]) == doc_tasks(
                    self.lines@.take(i as int),
                )[k],
            decreases self.lines@.len() - i,
        {
            assert(self.lines@.take(i + 1).drop_last() =~= self.lines@.take(i as int));
            match &self.lines[i].item {
                Item::Task(t) => {
                    r.push(t);
                },
                Item::Text(_) => {},
            }
            i += 1;
        }
        assert(self.lines@.take(self.lines@.len() as int) =~= self.lines@);
        r
    }

    pub fn task_count(&self) -> (r: usize)
        ensures
            r == doc_tasks(self.lines@).len(),
    {
        self.tasks().len()
    }

    /// Where the tasks are: the index of every line that holds one.
    pub fn task_lines(&self) -> (r: Vec<usize>)
        ensures
            forall|k: int| 0 <= k < r@.len() ==> #[trigger] r@[k] < self.lines@.len() && self.lines@[r@[k] as int].item is Task,
            forall|i: int| 0 <= i < self.lines@.len() && (#[trigger] self.lines@[i]).item is Task ==> r@.contains(i as usize),
            forall|a: int, b: int| 0 <= a < b < r@.len() ==> r@[a] < r@[b],
    {
        let mut r: Vec<usize> = Vec::new();
        let mut i: usize = 0;
        while i < self.lines.len()
            invariant
                i <= self.lines@.len(),
                forall|k: int| 0 <= k < r@.len() ==> #[trigger] r@[k] < i && self.lines@[r@[k] as int].item is Task,
                forall|j: int| 0 <= j < i && (#[trigger] self.lines@[j]).item is Task ==> r@.contains(j as usize),
                forall|a: int, b: int| 0 <= a < b < r@.len() ==> r@[a] < r@[b],
            decreases self.lines@.len() - i,
        {
            if let Item::Task(_) = &self.lines[i].item {
                let ghost before = r@;
                r.push(i);
                assert forall|j: int| 0 <= j <= i && (#[trigger] self.lines@[j]).item is Task implies r@.contains(j as usize) by {
                    if j < i {
                        assert(before.contains(j as usize));
                        let k = choose|k: int| 0 <= k < before.len() && before[k] == j as usize;
                        assert(r@[k] == j as usize);
                    } else {
                        assert(r@[r@.len() - 1] == i);
                    }
                }
            }
            i += 1;
        }
        r
    }

    /// Looks a task up the way `ratodo done '<text>'` does: a
    /// case-insensitive substring of the title, over the open tasks only.
    /// Ambiguity is reported rather than resolved, and an empty search
    /// matches nothing rather than everything.
    pub fn find_open(&self, text: &str) -> (r: Lookup)
        ensures
            ({
                let needle = crate::strs::lower_case(trim(text@));
                let hits = open_hits(self.lines@, needle);
                if needle.len() == 0 {
                    r == Lookup::NoMatch
                } else if hits.len() == 1 {
                    r == Lookup::One(hits[0] as usize)
                } else if hits.len() == 0 {
                    match first_done_hit(self.lines@, needle) {
                        Some(title) => r matches Lookup::AlreadyDone(s) && s@ == title,
                        None => r == Lookup::NoMatch,
                    }
                } else {
                    r matches Lookup::Several(v) && views(v@) == titles_at(self.lines@, hits)
                }
            }),
    {
        let trimmed = crate::strs::string_of(&crate::strs::trimmed(&chars_of(text)));
        let needle_s = crate::strs::lowercase(trimmed.as_str());
        let needle = chars_of(needle_s.as_str());
        let ghost gn = needle@;
        if needle.len() == 0 {
            return Lookup::NoMatch;
        }
        let mut hits: Vec<usize> = Vec::new();
        let mut titles: Vec<String> = Vec::new();
        let mut done_hit: Option<String> = None;
        let mut i: usize = 0;
        while i < self.lines.len()
            invariant
                i <= self.lines@.len(),
                needle@ == gn,
                hits@.len() == open_hits(self.lines@.take(i as int), gn).len(),
                forall|k: int| 0 <= k < hits@.len() ==> #[trigger] hits@[k] as int == open_hits(self.lines@.take(i as int), gn)[k],
                forall|k: int| 0 <= k < hits@.len() ==> hits@[k] < i,
                views(titles@) == titles_at(self.lines@, open_hits(self.lines@.take(i as int), gn)),
                match first_done_hit(self.lines@.take(i as int), gn) {
                    Some(t) => done_hit matches Some(s) && s@ == t,
                    None => done_hit is None,
                },
            decreases self.lines@.len() - i,
        {
            let ghost before = self.lines@.take(i as int);
            assert(self.lines@.take(i + 1).drop_last() =~= before);
            if let Item::Task(t) = &self.lines[i].item {
                let title = chars_of(crate::strs::lowercase(t.title.as_str()).as_str());
                let matched = crate::strs::contains(&title, &needle);
                if t.state == State::Open && matched {
                    let ghost h0 = hits@;
                    let ghost t0 = titles@;
                    hits.push(i);
                    titles.push(t.title.clone());
                    proof {
                        let oh = open_hits(self.lines@.take(i + 1), gn);
                        assert(oh == open_hits(before, gn).push(i as int));
                        assert(views(titles@) =~= views(t0).push(t.title@));
                        assert(titles_at(self.lines@, oh) =~= titles_at(self.lines@, open_hits(before, gn)).push(t.title@));
                    }
                }
                if t.state == State::Done && matched && done_hit.is_none() {
                    done_hit = Some(t.title.clone());
                }
            }
            i += 1;
        }
        assert(self.lines@.take(self.lines@.len() as int) =~= self.lines@);
        if hits.len() == 1 {
            Lookup::One(hits[0])
        } else if hits.len() == 0 {
            match done_hit {
                Some(t) => Lookup::AlreadyDone(t),
                None => Lookup::NoMatch,
            }
        } else {
            Lookup::Several(titles)
        }
    }

    /// Takes one line out and returns the task that was on it. Only the last
    /// line of a file can lack an ending, so when it is the one going, what
    /// is now last takes over that lack.
    pub fn remove_task(&mut self, line: usize) -> (r: Option<Task>)
        ensures
            ({
                let old_lines = old(self).lines@;
                if line < old_lines.len() && old_lines[line as int].item is Task {
                    &&& r == Some(old_lines[line as int].item->Task_0)
                    &&& if line == old_lines.len() - 1 && old_lines[line as int].ending
                        == Ending::Missing && line > 0 {
                        final(self).lines@ == old_lines.remove(line as int).update(
                            line - 1,
                            Line { ending: Ending::Missing, ..old_lines[line - 1] },
                        )
                    } else {
                        final(self).lines@ == old_lines.remove(line as int)
                    }
                } else {
                    r is None && final(self).lines@ == old_lines
                }
            }),
    {
        if line >= self.lines.len() {
            return None;
        }
        let is_task = match &self.lines[line].item {
            Item::Task(_) => true,
            Item::Text(_) => false,
        };
        if !is_task {
            return None;
        }
        let removed = self.lines.remove(line);
        if line == self.lines.len() && removed.ending == Ending::Missing && line > 0 {
            let last = self.lines.len() - 1;
            let mut l = self.lines.remove(last);
            l.ending = Ending::Missing;
            self.lines.push(l);
        }
        match removed.item {
            Item::Task(t) => Some(t),
            Item::Text(_) => None,
        }
    }

    /// The task on line `line`, to change in place; `None` when that line
    /// holds text or is not there.
    pub fn task_at_mut(&mut self, line: usize) -> (r: Option<&mut Task>)
        ensures
            line < old(self).lines@.len() && old(self).lines@[line as int].item is Task ==> (r matches Some(t) && *t == old(self).lines@[line as int].item->Task_0 && final(self).lines@ == old(self).lines@.update(
                line as int,
                Line { item: Item::Task(*final(t)), ending: old(self).lines@[line as int].ending },
            )),
            !(line < old(self).lines@.len() && old(self).lines@[line as int].item is Task) ==> (r is None && final(self).lines@ == old(self).lines@),
    {
        if line >= self.lines.len() {
            return None;
        }
        let l = &mut self.lines[line];
        match &mut l.item {
            Item::Task(t) => Some(t),
            Item::Text(_) => None,
        }
    }

    fn holds_task(&self, i: usize) -> (r: bool)
        requires
            i < self.lines@.len(),
        ensures
            r == self.lines@[i as int].item is Task,
    {
        match &self.lines[i].item {
            Item::Task(_) => true,
            Item::Text(_) => false,
        }
    }

    /// Inserts after the last task rather than at the end of the file, so a
    /// list that ends with prose keeps its prose last. Nothing already in the
    /// file moves relative to anything else.
    pub fn push_task(&mut self, task: Task)
        ensures
            final(self).lines@ == pushed(old(self).lines@, task),
    {
        let ghost old_lines = self.lines@;
        proof {
            lemma_after_last_task(old_lines);
        }
        let mut at = self.lines.len();
        assert(old_lines.take(at as int) =~= old_lines);
        while at > 0 && !self.holds_task(at - 1)
            invariant
                at <= old_lines.len(),
                self.lines@ == old_lines,
                after_last_task(old_lines) == after_last_task(old_lines.take(at as int)),
            decreases at,
        {
            assert(old_lines.take(at as int).drop_last() =~= old_lines.take(at - 1));
            assert(old_lines.take(at as int).last() == old_lines[at - 1]);
            at -= 1;
        }
        assert(after_last_task(old_lines.take(at as int)) == at as int) by {
            if at > 0 {
                assert(old_lines.take(at as int).last() == old_lines[at - 1]);
            }
        }
        if at == 0 {
            at = self.lines.len();
        }
        if at > 0 && self.lines[at - 1].ending == Ending::Missing {
            let mut prev = self.lines.remove(at - 1);
            prev.ending = Ending::Lf;
            self.lines.insert(at - 1, prev);
        }
        self.lines.insert(at, Line { item: Item::Task(task), ending: Ending::Lf });
    }
}

} // verus!
