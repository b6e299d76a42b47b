//! The list as the screen holds it: rows, which of them the cursor is on,
//! and which groups are folded away.

use vstd::prelude::*;

use crate::agenda::{group_views, heading_of, Group, Kind, KindView};
use crate::model::{identity_of, Task, TaskView};
use crate::strs::{chars_of, push_str, same_chars};

verus! {

/// What `h`, `l` and `z` ask for.
#[derive(Debug, Clone, Copy, PartialEq, Eq, Structural)]
pub enum Fold {
    Close,
    Open,
    Toggle,
}

/// One line of the list. Only a `Task` can hold the selection; the rest is
/// scenery the cursor moves over. Owned, so a reload can swap the whole list
/// out without the screen pointing into the document it replaced.
#[derive(Debug, Clone, PartialEq, Eq)]
pub enum Row {
    /// A group's heading, with how many tasks are in the group and whether
    /// it is folded away.
    Header { title: String, count: usize, folded: bool },
    Task(Task),
    /// The row that closes a group: the bottom edge of its box.
    GroupEnd,
}

/// A row as plain values.
pub enum RowView {
    Header { title: Seq<char>, count: nat, folded: bool },
    Task(TaskView),
    End,
}

impl View for Row {
    type V = RowView;

    open spec fn view(&self) -> RowView {
        match self {
            Row::Header { title, count, folded } => RowView::Header {
                title: title@,
                count: *count as nat,
                folded: *folded,
            },
            Row::Task(t) => RowView::Task(t@),
            Row::GroupEnd => RowView::End,
        }
    }
}

pub open spec fn row_views(rows: Seq<Row>) -> Seq<RowView> {
    rows.map_values(|r: Row| r@)
}

impl Row {
    /// A row-for-row copy.
    pub fn copied(&self) -> (r: Row)
        ensures
            r@ == self@,
    {
        match self {
            Row::Header { title, count, folded } => Row::Header {
                title: title.clone(),
                count: *count,
                folded: *folded,
            },
            Row::Task(t) => Row::Task(t.copied()),
            Row::GroupEnd => Row::GroupEnd,
        }
    }
}

/// What a group's heading row says: the user's own headings keep their
/// markdown marker, and the tool's own groups do not.
pub open spec fn header_text(k: KindView) -> Seq<char> {
    match heading_of(k) {
        Some(h) => match k {
            KindView::Section(_, Some(_)) => seq!['#', '#', ' '] + h,
            _ => h,
        },
        None => seq![],
    }
}

/// A titled or untitled group: its heading, its tasks and a closing row.
pub open spec fn group_rows(k: KindView, ts: Seq<Task>) -> Seq<RowView> {
    seq![RowView::Header { title: header_text(k), count: ts.len(), folded: false }]
        + ts.map_values(|t: Task| RowView::Task(t@)) + seq![RowView::End]
}

pub open spec fn rows_of(gs: Seq<(KindView, Seq<Task>)>) -> Seq<RowView>
    decreases gs.len(),
{
    if gs.len() == 0 {
        seq![]
    } else {
        rows_of(gs.drop_last()) + group_rows(gs.last().0, gs.last().1)
    }
}

fn header_of(kind: Kind) -> (r: String)
    ensures
        r@ == header_text(kind.view()),
{
    match kind.heading() {
        Some(h) => match kind {
            Kind::Section { name: Some(_), .. } => {
                let mut s = String::new();
                proof {
                    reveal_strlit("## ");
                }
                push_str(&mut s, "## ");
                push_str(&mut s, h.as_str());
                assert(s@ =~= header_text(kind.view()));
                s
            },
            _ => h,
        },
        None => String::new(),
    }
}

/// Flattens the agenda into lines: each group is a heading, its tasks and a
/// closing row.
pub fn rows(groups: &[Group]) -> (r: Vec<Row>)
    ensures
        row_views(r@) == rows_of(group_views(groups@)),
{
    let mut out: Vec<Row> = Vec::new();
    let mut g: usize = 0;
    assert(group_views(groups@.take(0)) =~= Seq::<(KindView, Seq<Task>)>::empty());
    while g < groups.len()
        invariant
            g <= groups@.len(),
            row_views(out@) == rows_of(group_views(groups@.take(g as int))),
        decreases groups@.len() - g,
    {
        let group = &groups[g];
        let ghost before = row_views(out@);
        let ghost ts = crate::agenda::refs(group.tasks@);
        out.push(Row::Header { title: header_of(group.kind), count: group.tasks.len(), folded: false });
        let mut i: usize = 0;
        while i < group.tasks.len()
            invariant
                i <= group.tasks@.len(),
                ts == crate::agenda::refs(group.tasks@),
                row_views(out@) == before + seq![
                    RowView::Header {
                        title: header_text(group.kind.view()),
                        count: ts.len(),
                        folded: false,
                    },
                ] + ts.take(i as int).map_values(|t: Task| RowView::Task(t@)),
            decreases group.tasks@.len() - i,
        {
            let t: &Task = group.tasks[i];
            let ghost prev = row_views(out@);
            let ghost head = before + seq![
                RowView::Header {
                    title: header_text(group.kind.view()),
                    count: ts.len(),
                    folded: false,
                },
            ];
            out.push(Row::Task(t.copied()));
            proof {
                assert(row_views(out@) =~= prev.push(RowView::Task(ts[i as int]@)));
                assert(ts.take(i + 1).map_values(|t: Task| RowView::Task(t@)) =~= ts.take(
                    i as int,
                ).map_values(|t: Task| RowView::Task(t@)).push(RowView::Task(ts[i as int]@)));
                assert(row_views(out@) =~= head + ts.take(i + 1).map_values(|t: Task| RowView::Task(t@)));
            }
            i += 1;
        }
        let ghost mid = row_views(out@);
        out.push(Row::GroupEnd);
        proof {
            assert(row_views(out@) =~= mid.push(RowView::End));
            assert(ts.take(ts.len() as int) =~= ts);
            let gv = group_views(groups@.take(g + 1));
            assert(group_views(groups@.take(g + 1)).drop_last() =~= group_views(groups@.take(g as int)));
            assert(gv.last() == (group.kind.view(), ts));
            assert(row_views(out@) =~= rows_of(gv));
        }
        g += 1;
    }
    assert(groups@.take(groups@.len() as int) =~= groups@);
    out
}

/// What the cursor can rest on: a task, or a folded group standing in for
/// its tasks.
pub open spec fn selectable(r: RowView) -> bool {
    match r {
        RowView::Task(_) => true,
        RowView::Header { folded, .. } => folded,
        RowView::End => false,
    }
}

/// `all` with the folded groups' tasks and closing rows taken out, each
/// heading marked with whether it is folded; the second half is whether the
/// rows being read belong to a folded group.
pub open spec fn visible_state(all: Seq<RowView>, folded: Seq<Seq<char>>) -> (Seq<RowView>, bool)
    decreases all.len(),
{
    if all.len() == 0 {
        (seq![], false)
    } else {
        let (rows, skipping) = visible_state(all.drop_last(), folded);
        match all.last() {
            RowView::Header { title, count, .. } => {
                let f = folded.contains(title);
                (rows.push(RowView::Header { title, count, folded: f }), f)
            },
            RowView::Task(t) => if skipping {
                (rows, skipping)
            } else {
                (rows.push(RowView::Task(t)), skipping)
            },
            RowView::End => if skipping {
                (rows, false)
            } else {
                (rows.push(RowView::End), false)
            },
        }
    }
}

pub open spec fn visible(all: Seq<RowView>, folded: Seq<Seq<char>>) -> Seq<RowView> {
    visible_state(all, folded).0
}

/// The first row from `k` on that the cursor can rest on.
pub open spec fn first_selectable_from(rows: Seq<RowView>, k: int) -> Option<int>
    decreases rows.len() - k,
{
    if k < 0 || k >= rows.len() {
        None
    } else if selectable(rows[k]) {
        Some(k)
    } else {
        first_selectable_from(rows, k + 1)
    }
}

/// The last row before `k` that the cursor can rest on.
pub open spec fn last_selectable_before(rows: Seq<RowView>, k: int) -> Option<int>
    decreases k,
{
    if k <= 0 || k > rows.len() {
        None
    } else if selectable(rows[k - 1]) {
        Some(k - 1)
    } else {
        last_selectable_before(rows, k - 1)
    }
}

/// What the cursor holds on to across a reload.
pub open spec fn task_identity(t: TaskView) -> Seq<char> {
    identity_of(t.file, t.section, t.title)
}

pub open spec fn holds(r: RowView, id: Seq<char>) -> bool {
    r matches RowView::Task(t) && task_identity(t) == id
}

/// The row holding `id` nearest to `at`, looking `d` away first; of two as
/// near, the one above.
pub open spec fn nearest_from(rows: Seq<RowView>, id: Seq<char>, at: int, d: nat) -> Option<int>
    decreases rows.len() + at + 1 - d,
{
    if d > rows.len() + at {
        None
    } else if 0 <= at - d < rows.len() && holds(rows[at - d], id) {
        Some(at - d)
    } else if 0 <= at + d < rows.len() && holds(rows[at + d], id) {
        Some(at + d)
    } else {
        nearest_from(rows, id, at, d + 1)
    }
}

/// Where the cursor goes when the rows change under it: to the task it was
/// on, by identity and the nearest if several share it; failing that to the
/// first row it can rest on from where it was, and failing that to the last
/// one above.
pub open spec fn reseated(rows: Seq<RowView>, old_rows: Seq<RowView>, old: Option<int>) -> Option<int> {
    let at: int = match old {
        Some(i) => i,
        None => 0,
    };
    let kept = match old {
        Some(i) => match old_rows[i] {
            RowView::Task(t) => nearest_from(rows, task_identity(t), at, 0),
            _ => None,
        },
        None => None,
    };
    match kept {
        Some(k) => Some(k),
        None => match first_selectable_from(rows, at) {
            Some(k) => Some(k),
            None => last_selectable_before(rows, if at < rows.len() { at } else { rows.len() as int }),
        },
    }
}

/// The nearest heading at or above `k`.
pub open spec fn header_above(rows: Seq<RowView>, k: int) -> Option<int>
    decreases k + 1,
{
    if k < 0 || k >= rows.len() {
        None
    } else if rows[k] is Header {
        Some(k)
    } else {
        header_above(rows, k - 1)
    }
}

/// The title of the group the cursor is in or on, when it has one.
pub open spec fn group_at(rows: Seq<RowView>, at: Option<int>) -> Option<Seq<char>> {
    match at {
        None => None,
        Some(i) => match header_above(rows, i) {
            None => None,
            Some(h) => match rows[h] {
                RowView::Header { title, .. } => if title.len() > 0 {
                    Some(title)
                } else {
                    None
                },
                _ => None,
            },
        },
    }
}

/// The first folded heading with this title.
pub open spec fn folded_header(rows: Seq<RowView>, title: Seq<char>, k: int) -> Option<int>
    decreases rows.len() - k,
{
    if k < 0 || k >= rows.len() {
        None
    } else if rows[k] matches RowView::Header { title: t, folded: true, .. } && t == title {
        Some(k)
    } else {
        folded_header(rows, title, k + 1)
    }
}

/// One step of the cursor: to the next row it can rest on in that
/// direction, or nowhere at an end.
pub open spec fn step(rows: Seq<RowView>, at: int, forward: bool) -> int {
    let next = if forward {
        first_selectable_from(rows, at + 1)
    } else {
        last_selectable_before(rows, at)
    };
    match next {
        Some(k) => k,
        None => at,
    }
}

/// `n` steps in one direction.
pub open spec fn moved(rows: Seq<RowView>, at: int, forward: bool, n: nat) -> int
    decreases n,
{
    if n == 0 {
        at
    } else {
        moved(rows, step(rows, at, forward), forward, (n - 1) as nat)
    }
}

pub open spec fn titles(v: Seq<String>) -> Seq<Seq<char>> {
    v.map_values(|s: String| s@)
}

/// The list on screen. Every row the document produces is kept, folded or
/// not, so that opening a group brings its rows back.
pub struct Screen {
    all: Vec<Row>,
    /// The titles of the folded groups, kept across a reload.
    folded: Vec<String>,
    rows: Vec<Row>,
    selected: Option<usize>,
}

impl Screen {
    /// Every row the document produced.
    pub closed spec fn everything(self) -> Seq<RowView> {
        row_views(self.all@)
    }

    /// The titles of the groups folded away.
    pub closed spec fn folds(self) -> Seq<Seq<char>> {
        titles(self.folded@)
    }

    /// The rows on screen.
    pub closed spec fn shown(self) -> Seq<RowView> {
        row_views(self.rows@)
    }

    pub closed spec fn cursor(self) -> Option<int> {
        match self.selected {
            Some(i) => Some(i as int),
            None => None,
        }
    }

    /// The cursor is on a row it can rest on, and it is off the list only
    /// when there is no such row.
    pub open spec fn wf(self) -> bool {
        &&& self.folds().no_duplicates()
        &&& (self.cursor() matches Some(i) ==> 0 <= i < self.shown().len() && selectable(self.shown()[i]))
        &&& (self.cursor() is None ==> forall|i: int| 0 <= i < self.shown().len() ==> !selectable(#[trigger] self.shown()[i]))
    }
}

pub proof fn lemma_first_selectable(rows: Seq<RowView>, k: int)
    requires
        0 <= k,
    ensures
        first_selectable_from(rows, k) matches Some(i) ==> k <= i < rows.len() && selectable(rows[i])
            && forall|j: int| k <= j < i ==> !selectable(#[trigger] rows[j]),
        first_selectable_from(rows, k) is None ==> forall|j: int| k <= j < rows.len() ==> !selectable(#[trigger] rows[j]),
    decreases rows.len() - k,
{
    if k < rows.len() && !selectable(rows[k]) {
        lemma_first_selectable(rows, k + 1);
    }
}

pub proof fn lemma_last_selectable(rows: Seq<RowView>, k: int)
    requires
        k <= rows.len(),
    ensures
        last_selectable_before(rows, k) matches Some(i) ==> 0 <= i < k && selectable(rows[i])
            && forall|j: int| i < j < k ==> !selectable(#[trigger] rows[j]),
        last_selectable_before(rows, k) is None ==> forall|j: int| 0 <= j < k ==> !selectable(#[trigger] rows[j]),
    decreases k,
{
    if k > 0 && !selectable(rows[k - 1]) {
        lemma_last_selectable(rows, k - 1);
    }
}

pub proof fn lemma_nearest(rows: Seq<RowView>, id: Seq<char>, at: int, d: nat)
    ensures
        nearest_from(rows, id, at, d) matches Some(i) ==> 0 <= i < rows.len() && holds(rows[i], id),
    decreases rows.len() + at + 1 - d,
{
    if d <= rows.len() + at {
        lemma_nearest(rows, id, at, d + 1);
    }
}

proof fn lemma_nearest_past(rows: Seq<RowView>, id: Seq<char>, at: int, d: nat)
    requires
        0 <= at,
        d > at,
        d >= rows.len(),
    ensures
        nearest_from(rows, id, at, d) is None,
    decreases rows.len() + at + 1 - d,
{
    if d <= rows.len() + at {
        lemma_nearest_past(rows, id, at, d + 1);
    }
}

/// Where the cursor is put back always satisfies the screen's invariant.
proof fn lemma_reseated(rows: Seq<RowView>, old_rows: Seq<RowView>, old: Option<int>)
    requires
        old matches Some(i) ==> 0 <= i < old_rows.len(),
    ensures
        reseated(rows, old_rows, old) matches Some(i) ==> 0 <= i < rows.len() && selectable(rows[i]),
        reseated(rows, old_rows, old) is None ==> forall|j: int| 0 <= j < rows.len() ==> !selectable(#[trigger] rows[j]),
{
    let at: int = match old {
        Some(i) => i,
        None => 0,
    };
    if let Some(i) = old {
        if let RowView::Task(t) = old_rows[i] {
            lemma_nearest(rows, task_identity(t), at, 0);
        }
    }
    lemma_first_selectable(rows, at);
    lemma_last_selectable(rows, if at < rows.len() { at } else { rows.len() as int });
}

fn selectable_at(rows: &Vec<Row>, i: usize) -> (r: bool)
    requires
        i < rows@.len(),
    ensures
        r == selectable(row_views(rows@)[i as int]),
{
    match &rows[i] {
        Row::Task(_) => true,
        Row::Header { folded, .. } => *folded,
        Row::GroupEnd => false,
    }
}

fn first_from(rows: &Vec<Row>, k: usize) -> (r: Option<usize>)
    ensures
        match r {
            Some(i) => first_selectable_from(row_views(rows@), k as int) == Some(i as int),
            None => first_selectable_from(row_views(rows@), k as int) is None,
        },
{
    let ghost rv = row_views(rows@);
    let mut j = k;
    while j < rows.len()
        invariant
            k <= j,
            rv == row_views(rows@),
            first_selectable_from(rv, k as int) == first_selectable_from(rv, j as int),
        decreases rows@.len() - j,
    {
        if selectable_at(rows, j) {
            return Some(j);
        }
        j += 1;
    }
    None
}

fn last_before(rows: &Vec<Row>, k: usize) -> (r: Option<usize>)
    requires
        k <= rows@.len(),
    ensures
        match r {
            Some(i) => last_selectable_before(row_views(rows@), k as int) == Some(i as int),
            None => last_selectable_before(row_views(rows@), k as int) is None,
        },
{
    let ghost rv = row_views(rows@);
    let mut j = k;
    while j > 0
        invariant
            j <= k,
            k <= rows@.len(),
            rv == row_views(rows@),
            last_selectable_before(rv, k as int) == last_selectable_before(rv, j as int),
        decreases j,
    {
        if selectable_at(rows, j - 1) {
            return Some(j - 1);
        }
        j -= 1;
    }
    None
}

fn has_title(folded: &Vec<String>, title: &str) -> (r: bool)
    ensures
        r == titles(folded@).contains(title@),
{
    let want = chars_of(title);
    let mut i: usize = 0;
    while i < folded.len()
        invariant
            i <= folded@.len(),
            want@ == title@,
            forall|k: int| 0 <= k < i ==> folded@[k]@ != title@,
        decreases folded@.len() - i,
    {
        if same_chars(&chars_of(folded[i].as_str()), &want) {
            assert(titles(folded@)[i as int] == title@);
            return true;
        }
        i += 1;
    }
    proof {
        if titles(folded@).contains(title@) {
            let k = choose|k: int| 0 <= k < titles(folded@).len() && titles(folded@)[k] == title@;
            assert(folded@[k]@ == title@);
        }
    }
    false
}

fn visible_rows(all: &Vec<Row>, folded: &Vec<String>) -> (r: Vec<Row>)
    ensures
        row_views(r@) == visible(row_views(all@), titles(folded@)),
{
    let ghost av = row_views(all@);
    let ghost fv = titles(folded@);
    let mut out: Vec<Row> = Vec::new();
    let mut skipping = false;
    let mut i: usize = 0;
    assert(av.take(0) =~= Seq::<RowView>::empty());
    while i < all.len()
        invariant
            i <= all@.len(),
            av == row_views(all@),
            fv == titles(folded@),
            (row_views(out@), skipping) == visible_state(av.take(i as int), fv),
        decreases all@.len() - i,
    {
        let ghost prev = row_views(out@);
        proof {
            assert(av.take(i + 1).drop_last() =~= av.take(i as int));
            assert(av.take(i + 1).last() == av[i as int]);
        }
        match &all[i] {
            Row::Header { title, count, .. } => {
                let f = has_title(folded, title.as_str());
                out.push(Row::Header { title: title.clone(), count: *count, folded: f });
                skipping = f;
                assert(row_views(out@) =~= prev.push(
                    RowView::Header { title: title@, count: *count as nat, folded: f },
                ));
            },
            Row::Task(t) => {
                if !skipping {
                    out.push(Row::Task(t.copied()));
                    assert(row_views(out@) =~= prev.push(RowView::Task(t@)));
                }
            },
            Row::GroupEnd => {
                if !skipping {
                    out.push(Row::GroupEnd);
                    assert(row_views(out@) =~= prev.push(RowView::End));
                }
                skipping = false;
            },
        }
        i += 1;
    }
    assert(av.take(all@.len() as int) =~= av);
    out
}

/// The row holding `id` nearest to `at`.
fn nearest(rows: &Vec<Row>, id: &Vec<char>, at: usize) -> (r: Option<usize>)
    requires
        at < usize::MAX,
    ensures
        match r {
            Some(i) => nearest_from(row_views(rows@), id@, at as int, 0) == Some(i as int),
            None => nearest_from(row_views(rows@), id@, at as int, 0) is None,
        },
{
    let ghost rv = row_views(rows@);
    let mut d: usize = 0;
    while d <= at || d < rows.len()
        invariant
            at < usize::MAX,
            rv == row_views(rows@),
            nearest_from(rv, id@, at as int, 0) == nearest_from(rv, id@, at as int, d as nat),
        decreases (if at > rows@.len() { at as int } else { rows@.len() as int }) + 1 - d,
    {
        if d <= at && at - d < rows.len() && holds_at(rows, at - d, id) {
            return Some(at - d);
        }
        if d < rows.len() && at < rows.len() - d && holds_at(rows, at + d, id) {
            return Some(at + d);
        }
        d += 1;
    }
    proof {
        lemma_nearest_past(rv, id@, at as int, d as nat);
    }
    None
}

fn holds_at(rows: &Vec<Row>, i: usize, id: &Vec<char>) -> (r: bool)
    requires
        i < rows@.len(),
    ensures
        r == holds(row_views(rows@)[i as int], id@),
{
    match &rows[i] {
        Row::Task(t) => {
            let mine = t.identity();
            same_chars(&chars_of(mine.as_str()), id)
        },
        _ => false,
    }
}

impl Screen {
    /// Rebuilds the rows on screen from every row and the folded groups, and
    /// puts the cursor back where `reseated` says.
    fn refresh(&mut self)
        requires
            old(self).cursor() matches Some(i) ==> 0 <= i < old(self).shown().len(),
            old(self).folds().no_duplicates(),
        ensures
            final(self).everything() == old(self).everything(),
            final(self).folds() == old(self).folds(),
            final(self).shown() == visible(old(self).everything(), old(self).folds()),
            final(self).cursor() == reseated(final(self).shown(), old(self).shown(), old(self).cursor()),
            final(self).wf(),
    {
        let rows = visible_rows(&self.all, &self.folded);
        let at: usize = match self.selected {
            Some(i) => i,
            None => 0,
        };
        let kept: Option<usize> = match self.selected {
            Some(i) => match &self.rows[i] {
                Row::Task(t) => {
                    let id = chars_of(t.identity().as_str());
                    // The cursor is on a row, so it is short of the row count.
                    let shown = self.rows.len();
                    assert(at < shown);
                    nearest(&rows, &id, at)
                },
                _ => None,
            },
            None => None,
        };
        let chosen = match kept {
            Some(k) => Some(k),
            None => match first_from(&rows, at) {
                Some(k) => Some(k),
                None => last_before(&rows, if at < rows.len() { at } else { rows.len() }),
            },
        };
        let ghost old_shown = row_views(self.rows@);
        let ghost old_cursor = self.cursor();
        self.rows = rows;
        self.selected = chosen;
        proof {
            lemma_reseated(row_views(self.rows@), old_shown, old_cursor);
        }
    }
}

/// `v` with every copy of `t` taken out.
pub open spec fn without(v: Seq<Seq<char>>, t: Seq<char>) -> Seq<Seq<char>>
    decreases v.len(),
{
    if v.len() == 0 {
        v
    } else if v.last() == t {
        without(v.drop_last(), t)
    } else {
        without(v.drop_last(), t).push(v.last())
    }
}

/// What `without` keeps: every title but `t`, and still each one once.
pub proof fn lemma_without(v: Seq<Seq<char>>, t: Seq<char>)
    ensures
        forall|x: Seq<char>| #[trigger] without(v, t).contains(x) <==> (v.contains(x) && x != t),
        v.no_duplicates() ==> without(v, t).no_duplicates(),
    decreases v.len(),
{
    if v.len() == 0 {
        assert(without(v, t) == v);
    } else {
        let w = v.drop_last();
        let l = v.last();
        lemma_without(w, t);
        if l == t {
            assert(without(v, t) == without(w, t));
        } else {
            assert(without(v, t) == without(w, t).push(l));
        }
        assert forall|x: Seq<char>| #[trigger] v.contains(x) <==> (w.contains(x) || x == l) by {
            if v.contains(x) {
                let k = choose|k: int| 0 <= k < v.len() && v[k] == x;
                if k < w.len() {
                    assert(w[k] == x);
                }
            }
            if w.contains(x) {
                let k = choose|k: int| 0 <= k < w.len() && w[k] == x;
                assert(v[k] == x);
            }
            if x == l {
                assert(v[v.len() - 1] == x);
            }
        }
        if v.no_duplicates() {
            assert(w.no_duplicates()) by {
                assert forall|i: int, j: int| 0 <= i < w.len() && 0 <= j < w.len() && i != j implies w[i] != w[j] by {
                    assert(v[i] == w[i] && v[j] == w[j]);
                }
            }
            if l != t {
                let u = without(w, t);
                assert(!u.contains(l)) by {
                    if w.contains(l) {
                        let k = choose|k: int| 0 <= k < w.len() && w[k] == l;
                        assert(v[k] == v[v.len() - 1]);
                    }
                }
                assert(u.push(l).no_duplicates()) by {
                    assert forall|i: int, j: int| 0 <= i < u.push(l).len() && 0 <= j < u.push(l).len() && i != j implies u.push(l)[i] != u.push(l)[j] by {
                        if i == u.len() {
                            assert(u.contains(u.push(l)[j]) || j == u.len());
                        } else if j == u.len() {
                            assert(u[i] == u.push(l)[i]);
                            assert(u.contains(u[i]));
                        }
                    }
                }
            }
        }
        if l != t {
            let u = without(w, t);
            assert forall|x: Seq<char>| #[trigger] u.push(l).contains(x) <==> (u.contains(x) || x == l) by {
                if u.push(l).contains(x) {
                    let k = choose|k: int| 0 <= k < u.push(l).len() && u.push(l)[k] == x;
                    if k < u.len() {
                        assert(u[k] == x);
                    }
                }
                if u.contains(x) {
                    let k = choose|k: int| 0 <= k < u.len() && u[k] == x;
                    assert(u.push(l)[k] == x);
                }
                if x == l {
                    assert(u.push(l)[u.len() as int] == x);
                }
            }
        }
    }
}

/// Whether a fold of this kind closes a group that is, or is not, closed.
pub open spec fn wants_closed(want: Fold, folded: bool) -> bool {
    match want {
        Fold::Close => true,
        Fold::Open => false,
        Fold::Toggle => !folded,
    }
}

/// Nothing the user can see or will see moved.
pub open spec fn unchanged(a: Screen, b: Screen) -> bool {
    &&& a.everything() == b.everything()
    &&& a.folds() == b.folds()
    &&& a.shown() == b.shown()
    &&& a.cursor() == b.cursor()
}

/// How far a count of steps goes, whichever way.
pub open spec fn magnitude(n: int) -> nat {
    if n >= 0 {
        n as nat
    } else {
        (-n) as nat
    }
}

fn without_title(folded: &Vec<String>, title: &str) -> (r: Vec<String>)
    ensures
        titles(r@) == without(titles(folded@), title@),
{
    let ghost fv = titles(folded@);
    let want = chars_of(title);
    let mut out: Vec<String> = Vec::new();
    let mut i: usize = 0;
    assert(fv.take(0) =~= Seq::<Seq<char>>::empty());
    while i < folded.len()
        invariant
            i <= folded@.len(),
            want@ == title@,
            fv == titles(folded@),
            titles(out@) == without(fv.take(i as int), title@),
        decreases folded@.len() - i,
    {
        proof {
            assert(fv.take(i + 1).drop_last() =~= fv.take(i as int));
            assert(fv.take(i + 1).last() == folded@[i as int]@);
        }
        if !same_chars(&chars_of(folded[i].as_str()), &want) {
            let ghost prev = titles(out@);
            out.push(folded[i].clone());
            assert(titles(out@) =~= prev.push(folded@[i as int]@));
        }
        i += 1;
    }
    assert(fv.take(folded@.len() as int) =~= fv);
    out
}

fn header_at_or_above(rows: &Vec<Row>, k: usize) -> (r: Option<usize>)
    requires
        k < rows@.len(),
    ensures
        match r {
            Some(i) => header_above(row_views(rows@), k as int) == Some(i as int),
            None => header_above(row_views(rows@), k as int) is None,
        },
{
    let ghost rv = row_views(rows@);
    let mut j: usize = k;
    loop
        invariant
            j <= k,
            k < rows@.len(),
            rv == row_views(rows@),
            header_above(rv, k as int) == header_above(rv, j as int),
        decreases j,
    {
        match &rows[j] {
            Row::Header { .. } => {
                return Some(j);
            },
            _ => {},
        }
        if j == 0 {
            return None;
        }
        j -= 1;
    }
}

proof fn lemma_header_above(rows: Seq<RowView>, k: int)
    ensures
        header_above(rows, k) matches Some(h) ==> 0 <= h <= k && h < rows.len() && rows[h] is Header,
    decreases k + 1,
{
    if 0 <= k < rows.len() && !(rows[k] is Header) {
        lemma_header_above(rows, k - 1);
    }
}

fn first_folded_header(rows: &Vec<Row>, title: &str) -> (r: Option<usize>)
    ensures
        match r {
            Some(i) => folded_header(row_views(rows@), title@, 0) == Some(i as int),
            None => folded_header(row_views(rows@), title@, 0) is None,
        },
{
    let ghost rv = row_views(rows@);
    let want = chars_of(title);
    let mut j: usize = 0;
    while j < rows.len()
        invariant
            rv == row_views(rows@),
            want@ == title@,
            folded_header(rv, title@, 0) == folded_header(rv, title@, j as int),
        decreases rows@.len() - j,
    {
        match &rows[j] {
            Row::Header { title: t, folded: true, .. } => {
                if same_chars(&chars_of(t.as_str()), &want) {
                    return Some(j);
                }
            },
            _ => {},
        }
        j += 1;
    }
    None
}

impl Screen {
    /// A screen of these rows, nothing folded, the cursor on the first row
    /// it can rest on.
    pub fn new(rows: Vec<Row>) -> (r: Screen)
        ensures
            r.wf(),
            r.everything() == row_views(rows@),
            r.folds() == Seq::<Seq<char>>::empty(),
            r.shown() == visible(row_views(rows@), Seq::<Seq<char>>::empty()),
            r.cursor() == first_selectable_from(r.shown(), 0),
    {
        let mut screen = Screen { all: rows, folded: Vec::new(), rows: Vec::new(), selected: None };
        assert(titles(screen.folded@) =~= Seq::<Seq<char>>::empty());
        screen.refresh();
        screen
    }

    /// Swaps the list for a freshly read one and leaves the cursor on the
    /// task it was on, by identity rather than by row; folded groups stay
    /// folded.
    pub fn replace(&mut self, rows: Vec<Row>)
        requires
            old(self).wf(),
        ensures
            final(self).wf(),
            final(self).everything() == row_views(rows@),
            final(self).folds() == old(self).folds(),
            final(self).shown() == visible(row_views(rows@), old(self).folds()),
            final(self).cursor() == reseated(final(self).shown(), old(self).shown(), old(self).cursor()),
    {
        self.all = rows;
        self.refresh();
    }

    /// `h` collapses, `l` opens, `z` does whichever is the opposite of now.
    /// `None` means it happened; otherwise what to say about why not.
    pub fn fold(&mut self, want: Fold) -> (r: Option<&'static str>)
        requires
            old(self).wf(),
        ensures
            final(self).wf(),
            match group_at(old(self).shown(), old(self).cursor()) {
                None => r == Some("no group to fold here") && unchanged(*final(self), *old(self)),
                Some(title) => {
                    let was = old(self).folds().contains(title);
                    let should = wants_closed(want, was);
                    if should == was {
                        &&& r == Some(if was { "already folded" } else { "nothing folded here" })
                        &&& unchanged(*final(self), *old(self))
                    } else {
                        &&& r is None
                        &&& final(self).everything() == old(self).everything()
                        &&& final(self).folds() == (if should {
                            old(self).folds().push(title)
                        } else {
                            without(old(self).folds(), title)
                        })
                        &&& final(self).shown() == visible(final(self).everything(), final(self).folds())
                        &&& final(self).cursor() == (if should {
                            match folded_header(final(self).shown(), title, 0) {
                                Some(k) => Some(k),
                                None => reseated(final(self).shown(), old(self).shown(), old(self).cursor()),
                            }
                        } else {
                            reseated(final(self).shown(), old(self).shown(), old(self).cursor())
                        })
                    }
                },
            },
    {
        let at = match self.selected {
            Some(at) => at,
            None => {
                return Some("no group to fold here");
            },
        };
        proof {
            lemma_header_above(self.shown(), at as int);
        }
        let title = match header_at_or_above(&self.rows, at) {
            Some(h) => match &self.rows[h] {
                Row::Header { title, .. } => {
                    if chars_of(title.as_str()).len() == 0 {
                        assert(title@.len() == 0);
                        return Some("no group to fold here");
                    }
                    title.clone()
                },
                _ => {
                    return Some("no group to fold here");
                },
            },
            None => {
                return Some("no group to fold here");
            },
        };
        let was = has_title(&self.folded, title.as_str());
        let should = match want {
            Fold::Close => true,
            Fold::Open => false,
            Fold::Toggle => !was,
        };
        if should == was {
            return Some(if was { "already folded" } else { "nothing folded here" });
        }
        if should {
            let ghost before = titles(self.folded@);
            self.folded.push(title.clone());
            assert(titles(self.folded@) =~= before.push(title@));
            assert(titles(self.folded@).no_duplicates()) by {
                let now = titles(self.folded@);
                assert forall|i: int, j: int| 0 <= i < now.len() && 0 <= j < now.len() && i != j implies now[i] != now[j] by {
                    if i == before.len() {
                        assert(before[j] == now[j]);
                    } else if j == before.len() {
                        assert(before[i] == now[i]);
                    }
                }
            }
            self.refresh();
            match first_folded_header(&self.rows, title.as_str()) {
                Some(k) => {
                    proof {
                        lemma_folded_header(self.shown(), title@, 0);
                    }
                    self.selected = Some(k);
                },
                None => {},
            }
        } else {
            proof {
                lemma_without(titles(self.folded@), title@);
            }
            self.folded = without_title(&self.folded, title.as_str());
            self.refresh();
        }
        None
    }

    pub fn selected(&self) -> (r: Option<usize>)
        ensures
            match r {
                Some(i) => self.cursor() == Some(i as int),
                None => self.cursor() is None,
            },
    {
        self.selected
    }

    /// The rows on screen.
    pub fn lines(&self) -> (r: &Vec<Row>)
        ensures
            row_views(r@) == self.shown(),
    {
        &self.rows
    }

    /// The task under the cursor, when the cursor is on a task.
    pub fn task(&self) -> (r: Option<&Task>)
        requires
            self.wf(),
        ensures
            match self.cursor() {
                Some(i) => match self.shown()[i] {
                    RowView::Task(tv) => r matches Some(t) && t@ == tv,
                    _ => r is None,
                },
                None => r is None,
            },
    {
        match self.selected {
            Some(i) => match &self.rows[i] {
                Row::Task(t) => Some(t),
                _ => None,
            },
            None => None,
        }
    }

    /// Rewrites the selected row and nothing else: a task ticked marks in
    /// place rather than jumping to where the next reload would put it.
    pub fn update_selected(&mut self, task: Task)
        requires
            old(self).wf(),
        ensures
            final(self).wf(),
            final(self).everything() == old(self).everything(),
            final(self).folds() == old(self).folds(),
            final(self).cursor() == old(self).cursor(),
            final(self).shown() == match old(self).cursor() {
                Some(i) => if old(self).shown()[i] is Task {
                    old(self).shown().update(i, RowView::Task(task@))
                } else {
                    old(self).shown()
                },
                None => old(self).shown(),
            },
    {
        match self.selected {
            Some(i) => {
                let is_task = match &self.rows[i] {
                    Row::Task(_) => true,
                    _ => false,
                };
                if is_task {
                    let ghost before = row_views(self.rows@);
                    self.rows.set(i, Row::Task(task));
                    assert(row_views(self.rows@) =~= before.update(i as int, RowView::Task(task@)));
                }
            },
            None => {},
        }
    }

    /// Moves `n` rows the cursor can rest on, down for a positive `n`, and
    /// stops at the ends rather than wrapping.
    pub fn move_by(&mut self, n: isize)
        requires
            old(self).wf(),
        ensures
            final(self).wf(),
            final(self).everything() == old(self).everything(),
            final(self).folds() == old(self).folds(),
            final(self).shown() == old(self).shown(),
            final(self).cursor() == match old(self).cursor() {
                Some(at) => Some(moved_by(old(self).shown(), at, n as int)),
                None => None,
            },
    {
        let mut at = match self.selected {
            Some(at) => at,
            None => {
                return;
            },
        };
        let forward = n > 0;
        let count: usize = if n >= 0 {
            n as usize
        } else {
            ((-(n + 1)) as usize) + 1
        };
        assert(count == magnitude(n as int));
        let ghost rv = self.shown();
        let ghost start = at as int;
        let len = self.rows.len();
        let mut i: usize = 0;
        while i < count
            invariant
                rv == row_views(self.rows@),
                len == rv.len(),
                i <= count,
                0 <= at < rv.len(),
                selectable(rv[at as int]),
                moved(rv, start, forward, count as nat) == moved(rv, at as int, forward, (count - i) as nat),
            ensures
                0 <= at < rv.len(),
                selectable(rv[at as int]),
                moved(rv, start, forward, count as nat) == at as int,
            decreases count - i,
        {
            let next = if forward {
                first_from(&self.rows, at + 1)
            } else {
                last_before(&self.rows, at)
            };
            proof {
                lemma_first_selectable(rv, at + 1);
                lemma_last_selectable(rv, at as int);
            }
            match next {
                Some(k) => {
                    at = k;
                },
                None => {
                    proof {
                        lemma_stuck(rv, at as int, forward, (count - i) as nat);
                    }
                    break;
                },
            }
            i += 1;
        }
        self.selected = Some(at);
    }

    /// The first row the cursor can rest on.
    pub fn top(&mut self)
        requires
            old(self).wf(),
        ensures
            final(self).wf(),
            final(self).everything() == old(self).everything(),
            final(self).folds() == old(self).folds(),
            final(self).shown() == old(self).shown(),
            final(self).cursor() == match first_selectable_from(old(self).shown(), 0) {
                Some(k) => Some(k),
                None => old(self).cursor(),
            },
    {
        proof {
            lemma_first_selectable(self.shown(), 0);
        }
        match first_from(&self.rows, 0) {
            Some(k) => {
                self.selected = Some(k);
            },
            None => {},
        }
    }

    /// The last row the cursor can rest on.
    pub fn bottom(&mut self)
        requires
            old(self).wf(),
        ensures
            final(self).wf(),
            final(self).everything() == old(self).everything(),
            final(self).folds() == old(self).folds(),
            final(self).shown() == old(self).shown(),
            final(self).cursor() == match last_selectable_before(old(self).shown(), old(self).shown().len() as int) {
                Some(k) => Some(k),
                None => old(self).cursor(),
            },
    {
        proof {
            lemma_last_selectable(self.shown(), self.shown().len() as int);
        }
        match last_before(&self.rows, self.rows.len()) {
            Some(k) => {
                self.selected = Some(k);
            },
            None => {},
        }
    }
}

proof fn lemma_folded_header(rows: Seq<RowView>, title: Seq<char>, k: int)
    requires
        0 <= k,
    ensures
        folded_header(rows, title, k) matches Some(i) ==> 0 <= i < rows.len() && selectable(rows[i]),
    decreases rows.len() - k,
{
    if k < rows.len() && !(rows[k] matches RowView::Header { title: t, folded: true, .. } && t == title) {
        lemma_folded_header(rows, title, k + 1);
    }
}

/// A cursor that cannot take one step cannot take any number of them.
proof fn lemma_stuck(rows: Seq<RowView>, at: int, forward: bool, n: nat)
    requires
        step(rows, at, forward) == at,
    ensures
        moved(rows, at, forward, n) == at,
    decreases n,
{
    if n > 0 {
        lemma_stuck(rows, at, forward, (n - 1) as nat);
    }
}

/// Moving `a` rows and then `b` more lands where moving `a + b` at once
/// does: a half page is that many single steps.
pub proof fn law_steps_compose(rows: Seq<RowView>, at: int, forward: bool, a: nat, b: nat)
    ensures
        moved(rows, at, forward, a + b) == moved(rows, moved(rows, at, forward, a), forward, b),
    decreases a,
{
    if a > 0 {
        law_steps_compose(rows, step(rows, at, forward), forward, (a - 1) as nat, b);
        assert((a + b - 1) as nat == (a - 1) as nat + b);
    }
}

/// Where `move_by(n)` takes the cursor from row `at`: `|n|` steps down for
/// a positive `n`, up otherwise.
pub open spec fn moved_by(rows: Seq<RowView>, at: int, n: int) -> int {
    moved(rows, at, n > 0, magnitude(n))
}

pub open spec fn signum(n: int) -> int {
    if n > 0 {
        1
    } else if n < 0 {
        -1
    } else {
        0
    }
}

/// Where `k` calls of `move_by(by)` land, one after the other.
pub open spec fn presses(rows: Seq<RowView>, at: int, by: int, k: nat) -> int
    decreases k,
{
    if k == 0 {
        at
    } else {
        presses(rows, moved_by(rows, at, by), by, (k - 1) as nat)
    }
}

proof fn lemma_presses_are_steps(rows: Seq<RowView>, at: int, n: int, k: nat)
    requires
        n != 0,
    ensures
        moved(rows, at, n > 0, k) == presses(rows, at, signum(n), k),
    decreases k,
{
    if k > 0 {
        let forward = n > 0;
        assert((signum(n) > 0) == forward);
        assert(magnitude(signum(n)) == 1);
        assert(moved(rows, step(rows, at, forward), forward, 0) == step(rows, at, forward));
        assert(moved(rows, at, forward, 1) == step(rows, at, forward));
        assert(moved_by(rows, at, signum(n)) == step(rows, at, forward));
        lemma_presses_are_steps(rows, step(rows, at, forward), n, (k - 1) as nat);
    }
}

/// `move_by(n)` lands where `|n|` calls of `move_by(1)`, or of
/// `move_by(-1)` for a negative `n`, would: a half page is nothing but that
/// many presses of `j` or `k`.
pub proof fn law_a_long_move_is_single_moves(rows: Seq<RowView>, at: int, n: int)
    ensures
        moved_by(rows, at, n) == presses(rows, at, signum(n), magnitude(n)),
{
    if n != 0 {
        lemma_presses_are_steps(rows, at, n, magnitude(n));
    }
}

/// The cursor never wraps: moving down never goes up, moving up never goes
/// down, it always lands on a row it can rest on, and with nothing further
/// that way it stays where it is.
pub proof fn law_moving_never_wraps(rows: Seq<RowView>, at: int, forward: bool, n: nat)
    requires
        0 <= at < rows.len(),
        selectable(rows[at]),
    ensures
        0 <= moved(rows, at, forward, n) < rows.len(),
        selectable(rows[moved(rows, at, forward, n)]),
        forward ==> moved(rows, at, forward, n) >= at,
        !forward ==> moved(rows, at, forward, n) <= at,
        forward && (forall|j: int| at < j < rows.len() ==> !selectable(#[trigger] rows[j]))
            ==> moved(rows, at, forward, n) == at,
        !forward && (forall|j: int| 0 <= j < at ==> !selectable(#[trigger] rows[j]))
            ==> moved(rows, at, forward, n) == at,
    decreases n,
{
    lemma_first_selectable(rows, at + 1);
    lemma_last_selectable(rows, at);
    if n > 0 {
        let next = step(rows, at, forward);
        law_moving_never_wraps(rows, next, forward, (n - 1) as nat);
        if forward && (forall|j: int| at < j < rows.len() ==> !selectable(#[trigger] rows[j])) {
            assert(first_selectable_from(rows, at + 1) is None);
        }
        if !forward && (forall|j: int| 0 <= j < at ==> !selectable(#[trigger] rows[j])) {
            assert(last_selectable_before(rows, at) is None);
        }
    }
}

proof fn lemma_nearest_finds(rows: Seq<RowView>, id: Seq<char>, at: int, d: nat, j: int)
    requires
        0 <= at,
        0 <= j < rows.len(),
        holds(rows[j], id),
        d <= (if j >= at { j - at } else { at - j }),
    ensures
        nearest_from(rows, id, at, d) matches Some(k) && holds(rows[k], id) && 0 <= k < rows.len()
            && (if k >= at { k - at } else { at - k }) <= (if j >= at { j - at } else { at - j }),
    decreases rows.len() + at + 1 - d,
{
    lemma_nearest(rows, id, at, d);
    let dist = if j >= at { j - at } else { at - j };
    if d < dist {
        if !(0 <= at - d < rows.len() && holds(rows[at - d], id)) && !(0 <= at + d < rows.len()
            && holds(rows[at + d], id)) {
            lemma_nearest_finds(rows, id, at, d + 1, j);
        }
    }
}

/// A reload leaves the cursor on the task it was on wherever that task went,
/// and of several tasks with its identity on the nearest one.
pub proof fn law_a_reload_keeps_the_cursor_on_its_task(
    rows: Seq<RowView>,
    old_rows: Seq<RowView>,
    i: int,
    j: int,
)
    requires
        0 <= i < old_rows.len(),
        old_rows[i] is Task,
        0 <= j < rows.len(),
        holds(rows[j], task_identity(old_rows[i]->Task_0)),
    ensures
        reseated(rows, old_rows, Some(i)) matches Some(k) && 0 <= k < rows.len() && holds(
            rows[k],
            task_identity(old_rows[i]->Task_0),
        ) && (if k >= i { k - i } else { i - k }) <= (if j >= i { j - i } else { i - j }),
{
    lemma_nearest_finds(rows, task_identity(old_rows[i]->Task_0), i, 0, j);
}

proof fn lemma_without_absent(v: Seq<Seq<char>>, t: Seq<char>)
    requires
        !v.contains(t),
    ensures
        without(v, t) == v,
    decreases v.len(),
{
    if v.len() > 0 {
        assert(!v.drop_last().contains(t)) by {
            if v.drop_last().contains(t) {
                let k = choose|k: int| 0 <= k < v.drop_last().len() && v.drop_last()[k] == t;
                assert(v[k] == t);
            }
        }
        lemma_without_absent(v.drop_last(), t);
        assert(v.drop_last().push(v.last()) =~= v);
    }
}

/// Folding a group and opening it again leaves the set of folded groups as
/// it was.
pub proof fn law_fold_then_open_restores_the_folds(folds: Seq<Seq<char>>, title: Seq<char>)
    requires
        !folds.contains(title),
    ensures
        without(folds.push(title), title) == folds,
{
    assert(folds.push(title).drop_last() =~= folds);
    lemma_without_absent(folds, title);
}

} // verus!
