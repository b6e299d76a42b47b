//! Agenda grouping: the dated tasks by how soon they are due, the undated
//! ones under the file's own headings, and the counts a status bar asks for.
//! `today` is always a parameter: nothing in here asks the clock.

use vstd::prelude::*;

use crate::date::{day_number, min_year, Date, Time};
use crate::model::{Priority, State, Task};
use crate::parse::opt_view;
use crate::strs::{chars_of, lower_case, lowercase, push_char, push_str, same_chars};

verus! {

/// How many of `ts` have `p`.
pub open spec fn count_of(ts: Seq<Task>, p: spec_fn(Task) -> bool) -> nat
    decreases ts.len(),
{
    if ts.len() == 0 {
        0
    } else {
        count_of(ts.drop_last(), p) + if p(ts.last()) {
            1nat
        } else {
            0nat
        }
    }
}

pub proof fn lemma_count_step(ts: Seq<Task>, p: spec_fn(Task) -> bool, i: int)
    requires
        0 <= i < ts.len(),
    ensures
        count_of(ts.take(i + 1), p) == count_of(ts.take(i), p) + if p(ts[i]) {
            1nat
        } else {
            0nat
        },
        count_of(ts.take(i), p) <= i,
    decreases i,
{
    assert(ts.take(i + 1).drop_last() =~= ts.take(i));
    if i > 0 {
        lemma_count_step(ts, p, i - 1);
    } else {
        assert(ts.take(0) =~= Seq::<Task>::empty());
    }
}

/// `#Ops` and `#ops` are the same tag: both sides lowercased the Unicode way.
pub open spec fn same_tag_spec(a: Seq<char>, b: Seq<char>) -> bool {
    lower_case(a) == lower_case(b)
}

pub fn same_tag(a: &str, b: &str) -> (r: bool)
    ensures
        r == same_tag_spec(a@, b@),
{
    let x = lowercase(a);
    let y = lowercase(b);
    same_chars(&chars_of(x.as_str()), &chars_of(y.as_str()))
}

/// What `list --tag` and `--prio` narrow the file down to. No tags means no
/// tag filter at all; several tags mean any of them.
#[derive(Debug, Clone, Copy, Default)]
pub struct Filter<'a> {
    pub tags: &'a [String],
    pub prio: Option<Priority>,
}

/// Whether a filter of these tags and this priority keeps `t`.
pub open spec fn admits(tags: Seq<String>, prio: Option<Priority>, t: Task) -> bool {
    &&& (tags.len() == 0 || exists|i: int, j: int|
        0 <= i < tags.len() && 0 <= j < t.tags@.len() && same_tag_spec(
            #[trigger] t.tags@[j]@,
            #[trigger] tags[i]@,
        ))
    &&& (prio matches Some(p) ==> t.priority == Some(p))
}

impl<'a> Filter<'a> {
    pub fn matches(&self, task: &Task) -> (r: bool)
        ensures
            r == admits(self.tags@, self.prio, *task),
    {
        let mut tagged = self.tags.len() == 0;
        let mut i: usize = 0;
        while i < self.tags.len() && !tagged
            invariant
                i <= self.tags@.len(),
                tagged ==> admits(self.tags@, None, *task),
                !tagged ==> self.tags@.len() > 0 && forall|a: int, j: int|
                    0 <= a < i && 0 <= j < task.tags@.len() ==> !same_tag_spec(
                        #[trigger] task.tags@[j]@,
                        #[trigger] self.tags@[a]@,
                    ),
            decreases self.tags@.len() - i,
        {
            let mut j: usize = 0;
            while j < task.tags.len() && !tagged
                invariant
                    i < self.tags@.len(),
                    j <= task.tags@.len(),
                    tagged ==> admits(self.tags@, None, *task),
                    !tagged ==> self.tags@.len() > 0 && forall|a: int, k: int|
                        (0 <= a < i && 0 <= k < task.tags@.len()) || (a == i && 0 <= k < j)
                            ==> !same_tag_spec(
                            #[trigger] task.tags@[k]@,
                            #[trigger] self.tags@[a]@,
                        ),
                decreases task.tags@.len() - j,
            {
                if same_tag(task.tags[j].as_str(), self.tags[i].as_str()) {
                    tagged = true;
                }
                j += 1;
            }
            i += 1;
        }
        let prio_ok = match self.prio {
            Some(p) => task.priority == Some(p),
            None => true,
        };
        tagged && prio_ok
    }
}

/// How far back the stats screen looks.
#[derive(Debug, Clone, Copy, PartialEq, Eq, Structural)]
pub enum Period {
    Week,
    Month,
    Year,
}

/// What a status bar asks for.
#[derive(Debug, Clone, Copy, Default, PartialEq, Eq, Structural)]
pub struct Counts {
    pub open: usize,
    pub today: usize,
    pub overdue: usize,
    /// Only the title bar reads this; `status` and `--json` say what they
    /// have always said.
    pub done: usize,
}

pub open spec fn is_open_task() -> spec_fn(Task) -> bool {
    |t: Task| t.is_open()
}

pub open spec fn due_today(today: Date) -> spec_fn(Task) -> bool {
    |t: Task| t.is_open() && (t.due matches Some(d) && d.date == today)
}

pub open spec fn overdue_on(today: Date) -> spec_fn(Task) -> bool {
    |t: Task| t.overdue(today)
}

pub open spec fn is_done_task() -> spec_fn(Task) -> bool {
    |t: Task| t.is_done()
}

/// The open count counts open tasks and nothing else: no list counts
/// anything, and adding a task adds one exactly when its state is `Open`,
/// so a finished or a cancelled task never counts. The same holds of the
/// tasks due today, which are the open ones dated today, and a task that
/// is not open is never overdue. Read together with `Counts::of`, these
/// are the numbers the status line shows.
pub proof fn law_only_open_tasks_are_counted_open(s: Seq<Task>, t: Task, today: Date)
    ensures
        count_of(Seq::<Task>::empty(), is_open_task()) == 0,
        count_of(s.push(t), is_open_task()) == count_of(s, is_open_task()) + if t.state == State::Open {
            1nat
        } else {
            0nat
        },
        t.state == State::Cancelled ==> count_of(s.push(t), is_open_task()) == count_of(s, is_open_task()),
        count_of(s, is_open_task()) + count_of(s, is_done_task()) <= s.len(),
        count_of(s.push(t), due_today(today)) == count_of(s, due_today(today)) + if t.state == State::Open
            && t.due is Some && t.due->0.date == today {
            1nat
        } else {
            0nat
        },
        t.state != State::Open ==> count_of(s.push(t), overdue_on(today)) == count_of(s, overdue_on(today)),
    decreases s.len(),
{
    assert(s.push(t).drop_last() =~= s);
    lemma_open_and_done_apart(s);
}

proof fn lemma_open_and_done_apart(s: Seq<Task>)
    ensures
        count_of(s, is_open_task()) + count_of(s, is_done_task()) <= s.len(),
    decreases s.len(),
{
    if s.len() > 0 {
        lemma_open_and_done_apart(s.drop_last());
    }
}

/// The word a status bar keys its style off: the worst thing the list holds.
pub open spec fn class_of(c: Counts) -> Seq<char> {
    if c.overdue > 0 {
        seq!['o', 'v', 'e', 'r', 'd', 'u', 'e']
    } else if c.today > 0 {
        seq!['d', 'u', 'e']
    } else {
        seq!['o', 'k']
    }
}

impl Counts {
    pub fn of(tasks: &[Task], today: Date) -> (r: Counts)
        ensures
            r.open == count_of(tasks@, is_open_task()),
            r.today == count_of(tasks@, due_today(today)),
            r.overdue == count_of(tasks@, overdue_on(today)),
            r.done == count_of(tasks@, is_done_task()),
    {
        let mut c = Counts { open: 0, today: 0, overdue: 0, done: 0 };
        let mut i: usize = 0;
        assert(tasks@.take(0) =~= Seq::<Task>::empty());
        while i < tasks.len()
            invariant
                i <= tasks@.len(),
                c.open == count_of(tasks@.take(i as int), is_open_task()),
                c.today == count_of(tasks@.take(i as int), due_today(today)),
                c.overdue == count_of(tasks@.take(i as int), overdue_on(today)),
                c.done == count_of(tasks@.take(i as int), is_done_task()),
            decreases tasks@.len() - i,
        {
            proof {
                lemma_count_step(tasks@, is_open_task(), i as int);
                lemma_count_step(tasks@, due_today(today), i as int);
                lemma_count_step(tasks@, overdue_on(today), i as int);
                lemma_count_step(tasks@, is_done_task(), i as int);
            }
            let t = &tasks[i];
            if t.open() {
                c.open = c.open + 1;
                match t.due {
                    Some(d) => {
                        if d.date.same_day(today) {
                            c.today = c.today + 1;
                        }
                    },
                    None => {},
                }
            }
            if t.is_overdue(today) {
                c.overdue = c.overdue + 1;
            }
            if t.done() {
                c.done = c.done + 1;
            }
            i += 1;
        }
        assert(tasks@.take(tasks@.len() as int) =~= tasks@);
        c
    }

    /// `overdue`, `due` or `ok`: these three words are an interface other
    /// people's status bars style themselves by.
    pub fn class(&self) -> (r: &'static str)
        ensures
            r@ == class_of(*self),
    {
        proof {
            reveal_strlit("overdue");
            reveal_strlit("due");
            reveal_strlit("ok");
        }
        if self.overdue > 0 {
            "overdue"
        } else if self.today > 0 {
            "due"
        } else {
            "ok"
        }
    }
}

/// The day number of the Monday of `today`'s week.
pub open spec fn monday_of(today: Date) -> int {
    today.number() - today.weekday_spec()
}

/// Finished, stamped, and stamped on day `k` of the week starting `monday`.
pub open spec fn done_on_day(monday: int, k: int) -> spec_fn(Task) -> bool {
    |t: Task| t.is_done() && (t.done_on matches Some(on) && on.number() - monday == k)
}

/// How many tasks were finished on each day of `today`'s week, Monday
/// first, read off the completion stamps: a task ticked with no stamp is in
/// no day's count.
pub fn week(tasks: &[Task], today: Date) -> (r: [usize; 7])
    requires
        today.wf(),
        monday_of(today) >= day_number(min_year(), 1, 1),
        forall|i: int| 0 <= i < tasks@.len() ==> ((#[trigger] tasks@[i]).done_on matches Some(d) ==> d.wf()),
    ensures
        forall|k: int| 0 <= k < 7 ==> r@[k] == count_of(tasks@, done_on_day(monday_of(today), k)),
{
    let wd = today.weekday();
    let mut out: [usize; 7] = [0usize; 7];
    let mut i: usize = 0;
    assert(tasks@.take(0) =~= Seq::<Task>::empty());
    while i < tasks.len()
        invariant
            i <= tasks@.len(),
            today.wf(),
            wd == today.weekday_spec(),
            forall|i: int| 0 <= i < tasks@.len() ==> ((#[trigger] tasks@[i]).done_on matches Some(d) ==> d.wf()),
            forall|k: int|
                0 <= k < 7 ==> out@[k] == count_of(
                    tasks@.take(i as int),
                    done_on_day(monday_of(today), k),
                ),
        decreases tasks@.len() - i,
    {
        let ghost before = out@;
        proof {
            assert forall|k: int| 0 <= k < 7 implies count_of(
                tasks@.take(i + 1),
                done_on_day(monday_of(today), k),
            ) == count_of(tasks@.take(i as int), done_on_day(monday_of(today), k)) + if done_on_day(
                monday_of(today),
                k,
            )(tasks@[i as int]) {
                1nat
            } else {
                0nat
            } && count_of(tasks@.take(i as int), done_on_day(monday_of(today), k)) <= i by {
                lemma_count_step(tasks@, done_on_day(monday_of(today), k), i as int);
            }
        }
        let t = &tasks[i];
        if t.done() {
            match t.done_on {
                Some(on) => {
                    let since = on.days_since(today);
                    let day = since + wd as i64;
                    if 0 <= day && day < 7 {
                        let k = day as usize;
                        out.set(k, out[k] + 1);
                        assert(forall|m: int| 0 <= m < 7 && m != k ==> out@[m] == before[m]);
                    }
                },
                None => {},
            }
        }
        i += 1;
    }
    assert(tasks@.take(tasks@.len() as int) =~= tasks@);
    out
}

#[derive(Debug, Clone, Copy, PartialEq, Eq)]
pub enum Kind<'a> {
    Overdue,
    Today,
    ThisWeek,
    Later,
    /// Undated, under the file's own heading. `None` is the run of tasks
    /// above the first one, and `file` is set only while several lists are
    /// open.
    Section { file: Option<&'a str>, name: Option<&'a str> },
}

/// A kind as text: which group, and for a heading its file and name.
pub enum KindView {
    Overdue,
    Today,
    ThisWeek,
    Later,
    Section(Option<Seq<char>>, Option<Seq<char>>),
}

pub open spec fn str_view(o: Option<&str>) -> Option<Seq<char>> {
    match o {
        Some(s) => Some(s@),
        None => None,
    }
}

pub open spec fn title_of(k: KindView) -> Option<Seq<char>> {
    match k {
        KindView::Overdue => Some(seq!['O', 'V', 'E', 'R', 'D', 'U', 'E']),
        KindView::Today => Some(seq!['T', 'O', 'D', 'A', 'Y']),
        KindView::ThisWeek => Some(seq!['T', 'H', 'I', 'S', ' ', 'W', 'E', 'E', 'K']),
        KindView::Later => Some(seq!['L', 'A', 'T', 'E', 'R']),
        KindView::Section(_, name) => name,
    }
}

/// The heading as shown: the name, and while several lists are open the
/// file it came out of in brackets after it.
pub open spec fn heading_of(k: KindView) -> Option<Seq<char>> {
    match k {
        KindView::Section(file, name) => match (file, name) {
            (Some(f), Some(n)) => Some(n + seq![' ', '('] + f + seq![')']),
            (Some(f), None) => Some(seq!['('] + f + seq![')']),
            (None, Some(n)) => Some(n),
            (None, None) => None,
        },
        other => title_of(other),
    }
}

impl<'a> Kind<'a> {
    pub open spec fn view(self) -> KindView {
        match self {
            Kind::Overdue => KindView::Overdue,
            Kind::Today => KindView::Today,
            Kind::ThisWeek => KindView::ThisWeek,
            Kind::Later => KindView::Later,
            Kind::Section { file, name } => KindView::Section(str_view(file), str_view(name)),
        }
    }

    /// `None` for tasks above the first heading: a file with no headings gets
    /// no headings, rather than a "(no section)" nobody wrote.
    pub fn title(self) -> (r: Option<&'a str>)
        ensures
            str_view(r) == title_of(self.view()),
    {
        proof {
            reveal_strlit("OVERDUE");
            reveal_strlit("TODAY");
            reveal_strlit("THIS WEEK");
            reveal_strlit("LATER");
        }
        match self {
            Kind::Overdue => Some("OVERDUE"),
            Kind::Today => Some("TODAY"),
            Kind::ThisWeek => Some("THIS WEEK"),
            Kind::Later => Some("LATER"),
            Kind::Section { name, .. } => name,
        }
    }

    /// One composition for the screen and the printed list, so `## Work`
    /// from two files is told apart in both or in neither.
    pub fn heading(self) -> (r: Option<String>)
        ensures
            match r {
                Some(s) => heading_of(self.view()) == Some(s@),
                None => heading_of(self.view()) is None,
            },
    {
        match self {
            Kind::Section { file, name } => match (file, name) {
                (Some(f), Some(n)) => {
                    let mut s = String::new();
                    push_str(&mut s, n);
                    push_char(&mut s, ' ');
                    push_char(&mut s, '(');
                    push_str(&mut s, f);
                    push_char(&mut s, ')');
                    assert(s@ =~= n@ + seq![' ', '('] + f@ + seq![')']);
                    Some(s)
                },
                (Some(f), None) => {
                    let mut s = String::new();
                    push_char(&mut s, '(');
                    push_str(&mut s, f);
                    push_char(&mut s, ')');
                    assert(s@ =~= seq!['('] + f@ + seq![')']);
                    Some(s)
                },
                (None, Some(n)) => {
                    let mut s = String::new();
                    push_str(&mut s, n);
                    assert(s@ =~= n@);
                    Some(s)
                },
                (None, None) => None,
            },
            other => match other.title() {
                Some(t) => {
                    let mut s = String::new();
                    push_str(&mut s, t);
                    assert(s@ =~= t@);
                    Some(s)
                },
                None => None,
            },
        }
    }
}

#[derive(Debug, Clone, PartialEq, Eq)]
pub struct Group<'a> {
    pub kind: Kind<'a>,
    pub tasks: Vec<&'a Task>,
}

/// The tasks of `ts` that have `p`, in order.
pub open spec fn select(ts: Seq<Task>, p: spec_fn(Task) -> bool) -> Seq<Task>
    decreases ts.len(),
{
    if ts.len() == 0 {
        seq![]
    } else if p(ts.last()) {
        select(ts.drop_last(), p).push(ts.last())
    } else {
        select(ts.drop_last(), p)
    }
}

/// Which dated group a dated task falls in: 0 before `today`, 1 on it, 2
/// within the week after it, 3 later. A time never moves a task to another
/// day.
pub open spec fn slot_of(t: Task, today: Date) -> int {
    let n = t.due->0.date.number() - today.number();
    if n < 0 {
        0
    } else if n == 0 {
        1
    } else if n <= 7 {
        2
    } else {
        3
    }
}

pub open spec fn in_slot(today: Date, k: int) -> spec_fn(Task) -> bool {
    |t: Task| t.due is Some && slot_of(t, today) == k
}

pub open spec fn undated() -> spec_fn(Task) -> bool {
    |t: Task| t.due is None
}

pub open spec fn time_le(a: Option<Time>, b: Option<Time>) -> bool {
    match (a, b) {
        (None, _) => true,
        (Some(_), None) => false,
        (Some(x), Some(y)) => x.hour < y.hour || (x.hour == y.hour && x.minute <= y.minute),
    }
}

/// The order inside a dated group: open before finished, then by day, then
/// by time, an all-day task heading its own day.
pub open spec fn key_le(a: Task, b: Task) -> bool {
    if a.is_open() != b.is_open() {
        a.is_open()
    } else {
        let x = a.due->0;
        let y = b.due->0;
        if x.date.number() != y.date.number() {
            x.date.number() < y.date.number()
        } else {
            time_le(x.time, y.time)
        }
    }
}

/// `x` put into sorted `s` after everything that does not come after it.
pub open spec fn insert_sorted(s: Seq<Task>, x: Task) -> Seq<Task>
    decreases s.len(),
{
    if s.len() == 0 {
        seq![x]
    } else if key_le(s.last(), x) {
        s.push(x)
    } else {
        insert_sorted(s.drop_last(), x).push(s.last())
    }
}

/// The stable sort by `key_le`: ties keep the order they came in.
pub open spec fn stable_sorted(s: Seq<Task>) -> Seq<Task>
    decreases s.len(),
{
    if s.len() == 0 {
        s
    } else {
        insert_sorted(stable_sorted(s.drop_last()), s.last())
    }
}

pub open spec fn same_section(a: Task, b: Task) -> bool {
    opt_view(a.file) == opt_view(b.file) && opt_view(a.section) == opt_view(b.section)
}

/// Contiguous runs under one heading, never merged across the file: two
/// `## Work` headings stay two runs.
pub open spec fn runs(ts: Seq<Task>) -> Seq<Seq<Task>>
    decreases ts.len(),
{
    if ts.len() == 0 {
        seq![]
    } else {
        let r = runs(ts.drop_last());
        if r.len() > 0 && same_section(r.last()[0], ts.last()) {
            r.update(r.len() - 1, r.last().push(ts.last()))
        } else {
            r.push(seq![ts.last()])
        }
    }
}

pub open spec fn section_key(t: Task) -> KindView {
    KindView::Section(opt_view(t.file), opt_view(t.section))
}

pub open spec fn dated_group(ts: Seq<Task>, today: Date, k: int, kind: KindView) -> Seq<(KindView, Seq<Task>)> {
    let b = select(ts, in_slot(today, k));
    if b.len() == 0 {
        seq![]
    } else {
        seq![(kind, stable_sorted(b))]
    }
}

/// The whole agenda: overdue, today, this week and later, each only when
/// it holds something and each sorted; then the undated runs in file order.
pub open spec fn agenda_of(ts: Seq<Task>, today: Date) -> Seq<(KindView, Seq<Task>)> {
    dated_group(ts, today, 0, KindView::Overdue) + dated_group(ts, today, 1, KindView::Today)
        + dated_group(ts, today, 2, KindView::ThisWeek) + dated_group(
        ts,
        today,
        3,
        KindView::Later,
    ) + runs(select(ts, undated())).map_values(
        |r: Seq<Task>| (section_key(r[0]), r),
    )
}

pub open spec fn refs(v: Seq<&Task>) -> Seq<Task> {
    v.map_values(|t: &Task| *t)
}

pub open spec fn group_views(v: Seq<Group>) -> Seq<(KindView, Seq<Task>)> {
    v.map_values(|g: Group| (g.kind.view(), refs(g.tasks@)))
}

/// Dated, with a real date.
pub open spec fn real_due(t: Task) -> bool {
    t.due matches Some(d) && d.wf()
}

pub open spec fn dates_real(ts: Seq<Task>) -> bool {
    forall|i: int| 0 <= i < ts.len() ==> ((#[trigger] ts[i]).due matches Some(d) ==> d.wf())
}

fn key_le_exec(a: &Task, b: &Task) -> (r: bool)
    requires
        a.due matches Some(d) ==> d.wf(),
        b.due matches Some(d) ==> d.wf(),
        a.due is Some,
        b.due is Some,
    ensures
        r == key_le(*a, *b),
{
    let ao = a.open();
    let bo = b.open();
    if ao != bo {
        return ao;
    }
    match (a.due, b.due) {
        (Some(x), Some(y)) => {
            let diff = x.date.days_since(y.date);
            if diff != 0 {
                diff < 0
            } else {
                match (x.time, y.time) {
                    (None, _) => true,
                    (Some(_), None) => false,
                    (Some(p), Some(q)) => p.hour < q.hour || (p.hour == q.hour && p.minute <= q.minute),
                }
            }
        },
        _ => true,
    }
}

proof fn lemma_insert_at(s: Seq<Task>, x: Task, j: int)
    requires
        0 <= j <= s.len(),
        j == 0 || key_le(s[j - 1], x),
        forall|k: int| j <= k < s.len() ==> !key_le(#[trigger] s[k], x),
    ensures
        insert_sorted(s, x) == s.insert(j, x),
    decreases s.len(),
{
    if s.len() == 0 {
        assert(s.insert(0, x) =~= seq![x]);
    } else if j == s.len() {
        assert(s.insert(j, x) =~= s.push(x));
    } else {
        lemma_insert_at(s.drop_last(), x, j);
        assert(s.insert(j, x) =~= s.drop_last().insert(j, x).push(s.last()));
    }
}

/// The stable sort of a dated group, by insertion.
fn sort_group<'a>(v: Vec<&'a Task>) -> (r: Vec<&'a Task>)
    requires
        forall|i: int| 0 <= i < v@.len() ==> real_due(*#[trigger] v@[i]),
    ensures
        refs(r@) == stable_sorted(refs(v@)),
        forall|i: int| 0 <= i < r@.len() ==> real_due(*#[trigger] r@[i]),
{
    let mut out: Vec<&'a Task> = Vec::new();
    let mut i: usize = 0;
    assert(refs(v@).take(0) =~= Seq::<Task>::empty());
    while i < v.len()
        invariant
            i <= v@.len(),
            forall|i: int| 0 <= i < v@.len() ==> real_due(*#[trigger] v@[i]),
            forall|i: int| 0 <= i < out@.len() ==> real_due(*#[trigger] out@[i]),
            refs(out@) == stable_sorted(refs(v@).take(i as int)),
        decreases v@.len() - i,
    {
        let x = v[i];
        let mut j: usize = out.len();
        while j > 0 && !key_le_exec(out[j - 1], x)
            invariant
                j <= out@.len(),
                x.due matches Some(d) && d.wf(),
                forall|i: int| 0 <= i < out@.len() ==> real_due(*#[trigger] out@[i]),
                forall|k: int| j <= k < out@.len() ==> !key_le(#[trigger] refs(out@)[k], *x),
            decreases j,
        {
            j -= 1;
        }
        proof {
            lemma_insert_at(refs(out@), *x, j as int);
            assert(refs(v@).take(i + 1).drop_last() =~= refs(v@).take(i as int));
        }
        let ghost before = out@;
        out.insert(j, x);
        assert(refs(out@) =~= refs(before).insert(j as int, *x));
        i += 1;
    }
    assert(refs(v@).take(v@.len() as int) =~= refs(v@));
    out
}

fn same_str(a: Option<&str>, b: Option<&str>) -> (r: bool)
    ensures
        r == (str_view(a) == str_view(b)),
{
    match (a, b) {
        (Some(x), Some(y)) => same_chars(&chars_of(x), &chars_of(y)),
        (None, None) => true,
        _ => false,
    }
}

fn opt_str<'a>(o: &'a Option<String>) -> (r: Option<&'a str>)
    ensures
        str_view(r) == opt_view(*o),
{
    match o {
        Some(s) => Some(s.as_str()),
        None => None,
    }
}

proof fn lemma_runs_nonempty(ts: Seq<Task>)
    ensures
        forall|k: int| 0 <= k < runs(ts).len() ==> (#[trigger] runs(ts)[k]).len() > 0,
    decreases ts.len(),
{
    if ts.len() > 0 {
        lemma_runs_nonempty(ts.drop_last());
        let r = runs(ts.drop_last());
        assert forall|k: int| 0 <= k < runs(ts).len() implies (#[trigger] runs(ts)[k]).len() > 0 by {
            if r.len() > 0 && same_section(r.last()[0], ts.last()) {
                if k < r.len() - 1 {
                    assert(runs(ts)[k] == r[k]);
                }
            } else {
                if k < r.len() {
                    assert(runs(ts)[k] == r[k]);
                }
            }
        }
    }
}

proof fn lemma_select_step(ts: Seq<Task>, p: spec_fn(Task) -> bool, i: int)
    requires
        0 <= i < ts.len(),
    ensures
        select(ts.take(i + 1), p) == if p(ts[i]) {
            select(ts.take(i), p).push(ts[i])
        } else {
            select(ts.take(i), p)
        },
{
    assert(ts.take(i + 1).drop_last() =~= ts.take(i));
}

/// The agenda, group by group.
pub fn agenda<'a>(tasks: &'a [Task], today: Date) -> (r: Vec<Group<'a>>)
    requires
        today.wf(),
        dates_real(tasks@),
    ensures
        group_views(r@) == agenda_of(tasks@, today),
{
    let mut b0: Vec<&'a Task> = Vec::new();
    let mut b1: Vec<&'a Task> = Vec::new();
    let mut b2: Vec<&'a Task> = Vec::new();
    let mut b3: Vec<&'a Task> = Vec::new();
    let mut sections: Vec<Group<'a>> = Vec::new();
    let ghost all = tasks@;
    let mut i: usize = 0;
    assert(all.take(0) =~= Seq::<Task>::empty());
    while i < tasks.len()
        invariant
            i <= all.len(),
            all == tasks@,
            today.wf(),
            dates_real(all),
            refs(b0@) == select(all.take(i as int), in_slot(today, 0)),
            refs(b1@) == select(all.take(i as int), in_slot(today, 1)),
            refs(b2@) == select(all.take(i as int), in_slot(today, 2)),
            refs(b3@) == select(all.take(i as int), in_slot(today, 3)),
            forall|k: int| 0 <= k < b0@.len() ==> real_due(*#[trigger] b0@[k]),
            forall|k: int| 0 <= k < b1@.len() ==> real_due(*#[trigger] b1@[k]),
            forall|k: int| 0 <= k < b2@.len() ==> real_due(*#[trigger] b2@[k]),
            forall|k: int| 0 <= k < b3@.len() ==> real_due(*#[trigger] b3@[k]),
            group_views(sections@) == runs(select(all.take(i as int), undated())).map_values(
                |r: Seq<Task>| (section_key(r[0]), r),
            ),
        decreases all.len() - i,
    {
        let task = &tasks[i];
        proof {
            lemma_select_step(all, in_slot(today, 0), i as int);
            lemma_select_step(all, in_slot(today, 1), i as int);
            lemma_select_step(all, in_slot(today, 2), i as int);
            lemma_select_step(all, in_slot(today, 3), i as int);
            lemma_select_step(all, undated(), i as int);
        }
        match task.due {
            None => {
                let kind = Kind::Section { file: opt_str(&task.file), name: opt_str(&task.section) };
                let ghost und = select(all.take(i as int), undated());
                let ghost rs = runs(und);
                let ghost und2 = select(all.take(i + 1), undated());
                assert(und2 == und.push(*task));
                assert(und2.drop_last() =~= und);
                proof {
                    lemma_runs_nonempty(und);
                }
                let n = sections.len();
                let joins = if n > 0 {
                    let last = sections[n - 1].kind;
                    match last {
                        Kind::Section { file, name } => {
                            same_str(file, kind_file(kind)) && same_str(name, kind_name(kind))
                        },
                        _ => false,
                    }
                } else {
                    false
                };
                let ghost gv = group_views(sections@);
                assert(gv.len() == rs.len());
                assert(n > 0 ==> gv[n - 1] == (section_key(rs.last()[0]), rs.last()));
                assert(n > 0 ==> gv[n - 1].0 == sections@[n - 1].kind.view());
                if joins {
                    assert(rs.len() > 0 && same_section(rs.last()[0], *task));
                    assert(runs(und2) == rs.update(rs.len() - 1, rs.last().push(*task)));
                    let ghost old_sections = sections@;
                    let mut g = sections.pop().unwrap();
                    let ghost t0 = g.tasks@;
                    g.tasks.push(task);
                    assert(refs(g.tasks@) =~= refs(t0).push(*task));
                    assert(refs(t0) == rs.last());
                    sections.push(g);
                    assert(sections@ =~= old_sections.update(n - 1, g));
                    assert(rs.last().push(*task)[0] == rs.last()[0]);
                    let ghost want = runs(und2).map_values(|r: Seq<Task>| (section_key(r[0]), r));
                    assert(g.kind == old_sections[n - 1].kind);
                    assert forall|k: int| 0 <= k < want.len() implies #[trigger] group_views(
                        sections@,
                    )[k] == want[k] by {
                        if k < n - 1 {
                            assert(sections@[k] == old_sections[k]);
                            assert(gv[k] == (section_key(rs[k][0]), rs[k]));
                        }
                    }
                    assert(group_views(sections@) =~= want);
                } else {
                    assert(!(rs.len() > 0 && same_section(rs.last()[0], *task)));
                    assert(runs(und2) == rs.push(seq![*task]));
                    let mut v: Vec<&'a Task> = Vec::new();
                    v.push(task);
                    assert(refs(v@) =~= seq![*task]);
                    let ghost old_sections = sections@;
                    sections.push(Group { kind, tasks: v });
                    let ghost want = runs(und2).map_values(|r: Seq<Task>| (section_key(r[0]), r));
                    assert forall|k: int| 0 <= k < want.len() implies #[trigger] group_views(
                        sections@,
                    )[k] == want[k] by {
                        if k < n {
                            assert(sections@[k] == old_sections[k]);
                            assert(gv[k] == (section_key(rs[k][0]), rs[k]));
                        }
                    }
                    assert(group_views(sections@) =~= want);
                }
            },
            Some(due) => {
                let diff = due.date.days_since(today);
                let ghost before0 = b0@;
                let ghost before1 = b1@;
                let ghost before2 = b2@;
                let ghost before3 = b3@;
                if diff < 0 {
                    b0.push(task);
                    assert(refs(b0@) =~= refs(before0).push(*task));
                } else if diff == 0 {
                    b1.push(task);
                    assert(refs(b1@) =~= refs(before1).push(*task));
                } else if diff <= 7 {
                    b2.push(task);
                    assert(refs(b2@) =~= refs(before2).push(*task));
                } else {
                    b3.push(task);
                    assert(refs(b3@) =~= refs(before3).push(*task));
                }
            },
        }
        i += 1;
    }
    assert(all.take(all.len() as int) =~= all);
    let mut out: Vec<Group<'a>> = Vec::new();
    if b0.len() > 0 {
        out.push(Group { kind: Kind::Overdue, tasks: sort_group(b0) });
    }
    let ghost o0 = group_views(out@);
    assert(o0 =~= dated_group(all, today, 0, KindView::Overdue));
    if b1.len() > 0 {
        out.push(Group { kind: Kind::Today, tasks: sort_group(b1) });
    }
    let ghost o1 = group_views(out@);
    assert(o1 =~= o0 + dated_group(all, today, 1, KindView::Today));
    if b2.len() > 0 {
        out.push(Group { kind: Kind::ThisWeek, tasks: sort_group(b2) });
    }
    let ghost o2 = group_views(out@);
    assert(o2 =~= o1 + dated_group(all, today, 2, KindView::ThisWeek));
    if b3.len() > 0 {
        out.push(Group { kind: Kind::Later, tasks: sort_group(b3) });
    }
    let ghost o3 = group_views(out@);
    assert(o3 =~= o2 + dated_group(all, today, 3, KindView::Later));
    let ghost sv = group_views(sections@);
    out.append(&mut sections);
    assert(group_views(out@) =~= o3 + sv);
    out
}

fn kind_file<'a>(k: Kind<'a>) -> (r: Option<&'a str>)
    ensures
        k matches Kind::Section { file, .. } ==> r == file,
{
    match k {
        Kind::Section { file, .. } => file,
        _ => None,
    }
}

fn kind_name<'a>(k: Kind<'a>) -> (r: Option<&'a str>)
    ensures
        k matches Kind::Section { name, .. } ==> r == name,
{
    match k {
        Kind::Section { name, .. } => name,
        _ => None,
    }
}

pub open spec fn in_order(s: Seq<Task>) -> bool {
    forall|i: int, j: int| 0 <= i < j < s.len() ==> key_le(#[trigger] s[i], #[trigger] s[j])
}

proof fn lemma_key_total(a: Task, b: Task)
    ensures
        key_le(a, b) || key_le(b, a),
{
}

proof fn lemma_key_trans(a: Task, b: Task, c: Task)
    requires
        key_le(a, b),
        key_le(b, c),
    ensures
        key_le(a, c),
{
}

proof fn lemma_insert_sorted(s: Seq<Task>, x: Task)
    requires
        in_order(s),
    ensures
        in_order(insert_sorted(s, x)),
        insert_sorted(s, x).to_multiset() =~= s.to_multiset().insert(x),
    decreases s.len(),
{
    broadcast use vstd::seq_lib::group_to_multiset_ensures;

    if s.len() == 0 {
        assert(seq![x] =~= Seq::<Task>::empty().push(x));
    } else if key_le(s.last(), x) {
        let r = s.push(x);
        assert forall|i: int, j: int| 0 <= i < j < r.len() implies key_le(#[trigger] r[i], #[trigger] r[j]) by {
            if j == s.len() {
                if i < s.len() - 1 {
                    lemma_key_trans(s[i], s.last(), x);
                }
            } else {
                assert(r[i] == s[i] && r[j] == s[j]);
            }
        }
    } else {
        let d = s.drop_last();
        assert(in_order(d)) by {
            assert forall|i: int, j: int| 0 <= i < j < d.len() implies key_le(#[trigger] d[i], #[trigger] d[j]) by {
                assert(d[i] == s[i] && d[j] == s[j]);
            }
        }
        lemma_insert_sorted(d, x);
        let t = insert_sorted(d, x);
        let r = t.push(s.last());
        assert(d.push(s.last()) =~= s);
        lemma_key_total(s.last(), x);
        assert forall|i: int| 0 <= i < t.len() implies key_le(#[trigger] t[i], s.last()) by {
            assert(t.contains(t[i]));
            assert(t.to_multiset().count(t[i]) > 0);
            if t[i] != x {
                assert(d.to_multiset().count(t[i]) > 0);
                assert(d.contains(t[i]));
                let k = choose|k: int| 0 <= k < d.len() && d[k] == t[i];
                assert(s[k] == d[k]);
            }
        }
        assert forall|i: int, j: int| 0 <= i < j < r.len() implies key_le(#[trigger] r[i], #[trigger] r[j]) by {
            if j == t.len() {
                assert(r[i] == t[i]);
            } else {
                assert(r[i] == t[i] && r[j] == t[j]);
            }
        }
    }
}

/// The order inside a dated group is a sort: nothing comes before what it
/// should follow, and nothing is gained or lost.
pub proof fn law_sorting_orders_and_keeps(s: Seq<Task>)
    ensures
        in_order(stable_sorted(s)),
        stable_sorted(s).to_multiset() =~= s.to_multiset(),
    decreases s.len(),
{
    broadcast use vstd::seq_lib::group_to_multiset_ensures;

    if s.len() > 0 {
        law_sorting_orders_and_keeps(s.drop_last());
        lemma_insert_sorted(stable_sorted(s.drop_last()), s.last());
        assert(s.drop_last().push(s.last()) =~= s);
    }
}

/// Two tasks the order cannot tell apart: each may come first.
pub open spec fn tied(a: Task, b: Task) -> bool {
    key_le(a, b) && key_le(b, a)
}

/// The tasks the order cannot tell apart from `t`.
pub open spec fn ties_with(t: Task) -> spec_fn(Task) -> bool {
    |y: Task| tied(y, t)
}

proof fn lemma_filter_push(s: Seq<Task>, x: Task, p: spec_fn(Task) -> bool)
    ensures
        s.push(x).filter(p) == (if p(x) {
            s.filter(p).push(x)
        } else {
            s.filter(p)
        }),
{
    reveal_with_fuel(Seq::<Task>::filter, 1);
    assert(s.push(x).drop_last() =~= s);
    assert(s.push(x).last() == x);
}

proof fn lemma_insert_keeps_ties(u: Seq<Task>, x: Task, t: Task)
    requires
        in_order(u),
    ensures
        insert_sorted(u, x).filter(ties_with(t)) == u.push(x).filter(ties_with(t)),
    decreases u.len(),
{
    let p = ties_with(t);
    if u.len() == 0 {
        assert(seq![x] =~= u.push(x));
    } else if key_le(u.last(), x) {
    } else {
        let d = u.drop_last();
        let l = u.last();
        assert(in_order(d)) by {
            assert forall|i: int, j: int| 0 <= i < j < d.len() implies key_le(#[trigger] d[i], #[trigger] d[j]) by {
                assert(d[i] == u[i] && d[j] == u[j]);
            }
        }
        lemma_insert_keeps_ties(d, x, t);
        let v = insert_sorted(d, x);
        assert(insert_sorted(u, x) == v.push(l));
        lemma_filter_push(v, l, p);
        lemma_filter_push(d, x, p);
        lemma_filter_push(u, x, p);
        assert(d.push(l) =~= u);
        lemma_filter_push(d, l, p);
        if p(l) && p(x) {
            lemma_key_trans(l, t, x);
        }
        let dp = d.filter(p);
        if p(l) && !p(x) {
            assert(v.filter(p) == dp);
        } else if !p(l) && p(x) {
            assert(v.filter(p) == dp.push(x));
        }
    }
}

/// The sort is stable: the tasks the order cannot tell apart from any one
/// task come out in the order they went in.
pub proof fn law_ties_keep_their_order(s: Seq<Task>, t: Task)
    ensures
        stable_sorted(s).filter(ties_with(t)) == s.filter(ties_with(t)),
    decreases s.len(),
{
    if s.len() > 0 {
        let d = s.drop_last();
        law_ties_keep_their_order(d, t);
        law_sorting_orders_and_keeps(d);
        lemma_insert_keeps_ties(stable_sorted(d), s.last(), t);
        lemma_filter_push(stable_sorted(d), s.last(), ties_with(t));
        lemma_filter_push(d, s.last(), ties_with(t));
        assert(d.push(s.last()) =~= s);
    }
}

/// A dated group reads top to bottom as a day does: open tasks before
/// closed ones, then by day, earliest first; on one day an all-day task
/// before any timed one, and timed tasks by time of day, earliest first.
pub proof fn law_a_dated_group_runs_by_day_and_time(s: Seq<Task>, i: int, j: int)
    requires
        0 <= i < j < stable_sorted(s).len(),
        stable_sorted(s)[i].due is Some,
        stable_sorted(s)[j].due is Some,
    ensures
        ({
            let a = stable_sorted(s)[i];
            let b = stable_sorted(s)[j];
            let (x, y) = (a.due->0, b.due->0);
            &&& (b.state == State::Open ==> a.state == State::Open)
            &&& (a.state == State::Open) == (b.state == State::Open) ==> x.date.number() <= y.date.number()
            &&& ((a.state == State::Open) == (b.state == State::Open) && x.date.number() == y.date.number()
                && y.time is None) ==> x.time is None
            &&& ((a.state == State::Open) == (b.state == State::Open) && x.date.number() == y.date.number()
                && x.time is Some && y.time is Some) ==> (x.time->0.hour < y.time->0.hour || (x.time->0.hour
                == y.time->0.hour && x.time->0.minute <= y.time->0.minute))
        }),
{
    law_sorting_orders_and_keeps(s);
    let o = stable_sorted(s);
    assert(key_le(o[i], o[j]));
}

/// Every task of the groups, group after group.
pub open spec fn flatten_groups(g: Seq<(KindView, Seq<Task>)>) -> Seq<Task>
    decreases g.len(),
{
    if g.len() == 0 {
        seq![]
    } else {
        flatten_groups(g.drop_last()) + g.last().1
    }
}

proof fn lemma_flatten_concat(a: Seq<(KindView, Seq<Task>)>, b: Seq<(KindView, Seq<Task>)>)
    ensures
        flatten_groups(a + b) == flatten_groups(a) + flatten_groups(b),
    decreases b.len(),
{
    if b.len() == 0 {
        assert(a + b =~= a);
        assert(flatten_groups(a) + seq![] =~= flatten_groups(a));
    } else {
        assert((a + b).drop_last() =~= a + b.drop_last());
        lemma_flatten_concat(a, b.drop_last());
        assert(flatten_groups(a) + flatten_groups(b.drop_last()) + b.last().1 =~= flatten_groups(a)
            + (flatten_groups(b.drop_last()) + b.last().1));
    }
}

proof fn lemma_flatten_runs(u: Seq<Task>)
    ensures
        flatten_groups(runs(u).map_values(|r: Seq<Task>| (section_key(r[0]), r))) == u,
    decreases u.len(),
{
    let f = |r: Seq<Task>| (section_key(r[0]), r);
    if u.len() == 0 {
        assert(runs(u).map_values(f) =~= Seq::<(KindView, Seq<Task>)>::empty());
    } else {
        let d = u.drop_last();
        let rd = runs(d);
        lemma_flatten_runs(d);
        lemma_runs_nonempty(d);
        if rd.len() > 0 && same_section(rd.last()[0], u.last()) {
            let m = rd.map_values(f);
            let mu = runs(u).map_values(f);
            assert(mu.drop_last() =~= m.drop_last());
            assert(mu.last().1 == rd.last().push(u.last()));
            assert(flatten_groups(m) == flatten_groups(m.drop_last()) + rd.last());
            assert(flatten_groups(mu) == flatten_groups(m.drop_last()) + rd.last().push(u.last()));
            assert(flatten_groups(m.drop_last()) + rd.last().push(u.last()) =~= (flatten_groups(
                m.drop_last(),
            ) + rd.last()).push(u.last()));
            assert(d.push(u.last()) =~= u);
        } else {
            let m = rd.map_values(f);
            let mu = runs(u).map_values(f);
            assert(mu.drop_last() =~= m);
            assert(mu.last().1 == seq![u.last()]);
            assert(d + seq![u.last()] =~= u);
        }
    }
}

proof fn lemma_select_parts(ts: Seq<Task>, today: Date)
    ensures
        ts.to_multiset() =~= select(ts, in_slot(today, 0)).to_multiset().add(
            select(ts, in_slot(today, 1)).to_multiset(),
        ).add(select(ts, in_slot(today, 2)).to_multiset()).add(
            select(ts, in_slot(today, 3)).to_multiset(),
        ).add(select(ts, undated()).to_multiset()),
    decreases ts.len(),
{
    broadcast use vstd::seq_lib::group_to_multiset_ensures;
    broadcast use vstd::multiset::group_multiset_axioms;

    if ts.len() > 0 {
        lemma_select_parts(ts.drop_last(), today);
        assert(ts.drop_last().push(ts.last()) =~= ts);
    }
}

/// No task is lost or doubled: the groups of the agenda hold exactly the
/// tasks it was given, each once.
pub proof fn law_agenda_keeps_every_task(ts: Seq<Task>, today: Date)
    ensures
        flatten_groups(agenda_of(ts, today)).to_multiset() =~= ts.to_multiset(),
{
    broadcast use vstd::seq_lib::group_to_multiset_ensures;
    broadcast use vstd::multiset::group_multiset_axioms;

    let g0 = dated_group(ts, today, 0, KindView::Overdue);
    let g1 = dated_group(ts, today, 1, KindView::Today);
    let g2 = dated_group(ts, today, 2, KindView::ThisWeek);
    let g3 = dated_group(ts, today, 3, KindView::Later);
    let sec = runs(select(ts, undated())).map_values(|r: Seq<Task>| (section_key(r[0]), r));
    lemma_flatten_concat(g0, g1);
    lemma_flatten_concat(g0 + g1, g2);
    lemma_flatten_concat(g0 + g1 + g2, g3);
    lemma_flatten_concat(g0 + g1 + g2 + g3, sec);
    lemma_flatten_runs(select(ts, undated()));
    assert forall|k: int, kind: KindView| 0 <= k < 4 implies (#[trigger] flatten_groups(
        dated_group(ts, today, k, kind),
    )).to_multiset() =~= select(ts, in_slot(today, k)).to_multiset() by {
        let b = select(ts, in_slot(today, k));
        if b.len() == 0 {
            assert(b =~= Seq::<Task>::empty());
            assert(flatten_groups(dated_group(ts, today, k, kind)) =~= Seq::<Task>::empty());
        } else {
            let dg = dated_group(ts, today, k, kind);
            assert(dg.drop_last() =~= Seq::<(KindView, Seq<Task>)>::empty());
            assert(flatten_groups(dg.drop_last()) =~= Seq::<Task>::empty());
            assert(dg.last().1 == stable_sorted(b));
            assert(Seq::<Task>::empty() + stable_sorted(b) =~= stable_sorted(b));
            assert(flatten_groups(dg) =~= stable_sorted(b));
            law_sorting_orders_and_keeps(b);
        }
    }
    let f0 = flatten_groups(g0);
    let f1 = flatten_groups(g1);
    let f2 = flatten_groups(g2);
    let f3 = flatten_groups(g3);
    vstd::seq_lib::lemma_multiset_commutative(f0, f1);
    vstd::seq_lib::lemma_multiset_commutative(f0 + f1, f2);
    vstd::seq_lib::lemma_multiset_commutative(f0 + f1 + f2, f3);
    vstd::seq_lib::lemma_multiset_commutative(f0 + f1 + f2 + f3, select(ts, undated()));
    lemma_select_parts(ts, today);
}

} // verus!
