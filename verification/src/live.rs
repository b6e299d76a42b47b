//! The open lists and the changes the list screen makes to them. Each change
//! is made in memory and handed back as a write for the file it belongs to;
//! once the file has taken it the change becomes the one level of undo, and
//! when the file refuses it the document is put back.

use vstd::prelude::*;

use crate::capture::Part;
use crate::date::Date;
use crate::model::{
    line_of_raw, restate_post, Doc, Item, Line, LineView, State, Task, TaskView,
};
use crate::strs::{chars_of, push_str, same_chars};
use crate::text::{clean, plain};
use crate::ui::{Input, Purpose};

verus! {

/// What the one reserved line under the frame is saying.
#[derive(Debug, Clone, PartialEq, Eq)]
pub enum Notice {
    /// The default: which keys do what.
    Hints,
    /// Just after an action.
    Said(String),
    /// A write that was refused: the one thing worth interrupting for.
    Warned(String),
}

/// A notice as text: whether it is a warning, and what it says.
pub open spec fn notice_text(n: Notice) -> Option<(bool, Seq<char>)> {
    match n {
        Notice::Hints => None,
        Notice::Said(s) => Some((false, s@)),
        Notice::Warned(s) => Some((true, s@)),
    }
}

pub open spec fn names_view(v: Seq<String>) -> Seq<Seq<char>> {
    v.map_values(|s: String| s@)
}

/// The list called `todo.md`, or the first one when none is.
pub open spec fn target_of(names: Seq<Seq<char>>, k: int) -> int
    decreases names.len() - k,
{
    if k < 0 || k >= names.len() {
        0
    } else if names[k] == seq!['t', 'o', 'd', 'o', '.', 'm', 'd'] {
        k
    } else {
        target_of(names, k + 1)
    }
}

/// The list named `file`, or the first when there is no such list or no
/// name: the single-list case, where the answer is the only list there is.
pub open spec fn which_of(names: Seq<Seq<char>>, file: Option<Seq<char>>, k: int) -> int
    decreases names.len() - k,
{
    match file {
        None => 0,
        Some(f) => if k < 0 || k >= names.len() {
            0
        } else if names[k] == f {
            k
        } else {
            which_of(names, file, k + 1)
        },
    }
}

proof fn lemma_which_of(names: Seq<Seq<char>>, file: Option<Seq<char>>, k: int)
    requires
        0 <= k,
    ensures
        0 <= which_of(names, file, k) && (names.len() > 0 ==> which_of(names, file, k) < names.len()),
    decreases names.len() - k,
{
    if file is Some && k < names.len() && names[k] != file->0 {
        lemma_which_of(names, file, k + 1);
    }
}

proof fn lemma_target_of(names: Seq<Seq<char>>, k: int)
    requires
        0 <= k,
    ensures
        0 <= target_of(names, k) && (names.len() > 0 ==> target_of(names, k) < names.len()),
    decreases names.len() - k,
{
    if k < names.len() && names[k] != seq!['t', 'o', 'd', 'o', '.', 'm', 'd'] {
        lemma_target_of(names, k + 1);
    }
}

/// Where a captured task lands: the list called `todo.md` when it is open,
/// the first list otherwise. A fixed answer: a capture does not depend on
/// what the cursor is over.
pub fn capture_target(names: &[String]) -> (r: usize)
    ensures
        r == target_of(names_view(names@), 0),
{
    proof {
        reveal_strlit("todo.md");
        assert("todo.md"@ =~= seq!['t', 'o', 'd', 'o', '.', 'm', 'd']);
    }
    let want = chars_of("todo.md");
    let ghost nv = names_view(names@);
    let mut k: usize = 0;
    while k < names.len()
        invariant
            nv == names_view(names@),
            want@ == seq!['t', 'o', 'd', 'o', '.', 'm', 'd'],
            target_of(nv, 0) == target_of(nv, k as int),
        decreases names@.len() - k,
    {
        if same_chars(&chars_of(names[k].as_str()), &want) {
            return k;
        }
        k += 1;
    }
    0
}

/// The list a capture addresses: what follows the `$` of the line's first
/// `$word`, if it has one.
pub open spec fn list_word(s: Seq<char>, today: Date) -> Option<Seq<char>> {
    match crate::form::part_of_text(s, today, Part::List) {
        Some(w) => Some(if w.len() > 0 { w.drop_first() } else { w }),
        None => None,
    }
}

/// `$work` names the list `work.md`, and so does `$work.md`.
pub open spec fn list_named(word: Seq<char>, file: Seq<char>) -> bool {
    file == word || file == word + ".md"@
}

/// The first of `names` from `k` on that `word` names.
pub open spec fn first_named(names: Seq<Seq<char>>, word: Seq<char>, k: int) -> Option<int>
    decreases names.len() - k,
{
    if k < 0 || k >= names.len() {
        None
    } else if list_named(word, names[k]) {
        Some(k)
    } else {
        first_named(names, word, k + 1)
    }
}

/// Where a capture of `s` goes: the list its `$word` names, or the capture
/// target when it names none; nowhere when the word names no open list.
pub open spec fn capture_into_of(s: Seq<char>, names: Seq<Seq<char>>, today: Date) -> Option<int> {
    match list_word(s, today) {
        None => Some(target_of(names, 0)),
        Some(w) => first_named(names, w, 0),
    }
}

proof fn lemma_first_named(names: Seq<Seq<char>>, word: Seq<char>, k: int)
    requires
        0 <= k,
    ensures
        first_named(names, word, k) matches Some(i) ==> k <= i < names.len() && list_named(word, names[i]),
    decreases names.len() - k,
{
    if k < names.len() && !list_named(word, names[k]) {
        lemma_first_named(names, word, k + 1);
    }
}

/// The name a line's `$word` gives, without its `$`.
pub fn list_of(text: &str, today: Date) -> (r: Option<String>)
    requires
        today.wf(),
    ensures
        match r {
            Some(w) => list_word(text@, today) == Some(w@),
            None => list_word(text@, today) is None,
        },
{
    match crate::form::part_of(text, today, Part::List) {
        Some(w) => {
            let v = chars_of(w.as_str());
            if v.len() == 0 {
                return Some(w);
            }
            let rest = crate::strs::slice_chars(&v, 1, v.len());
            assert(rest@ =~= w@.drop_first());
            Some(crate::strs::string_of(&rest))
        },
        None => None,
    }
}

/// Whether `$word` names the list called `file`.
pub fn names_list(word: &str, file: &str) -> (r: bool)
    ensures
        r == list_named(word@, file@),
{
    let f = chars_of(file);
    if same_chars(&f, &chars_of(word)) {
        return true;
    }
    let mut with = crate::strs::string_of(&chars_of(word));
    push_str(&mut with, ".md");
    same_chars(&f, &chars_of(with.as_str()))
}

/// The list a capture goes to, by its index in `names`: the one its `$word`
/// names, or the capture target without one. `None` when the word names no
/// list that is open: a capture never invents a file, and never falls back
/// to another list.
pub fn capture_into(text: &str, names: &[String], today: Date) -> (r: Option<usize>)
    requires
        names@.len() > 0,
        today.wf(),
    ensures
        r matches Some(i) ==> i < names@.len(),
        capture_into_of(text@, names_view(names@), today) == match r {
            Some(i) => Some(i as int),
            None => None::<int>,
        },
{
    let ghost nv = names_view(names@);
    match list_of(text, today) {
        None => {
            proof {
                lemma_target_of(nv, 0);
            }
            Some(capture_target(names))
        },
        Some(w) => {
            proof {
                lemma_first_named(nv, w@, 0);
            }
            let mut k: usize = 0;
            while k < names.len()
                invariant
                    nv == names_view(names@),
                    list_word(text@, today) == Some(w@),
                    first_named(nv, w@, 0) == first_named(nv, w@, k as int),
                decreases names@.len() - k,
            {
                if names_list(w.as_str(), names[k].as_str()) {
                    assert(nv[k as int] == names@[k as int]@);
                    return Some(k);
                }
                assert(nv[k as int] == names@[k as int]@);
                k += 1;
            }
            None
        },
    }
}

/// Tasks read out of a list while several are open carry its name.
pub open spec fn stamped(lines: Seq<LineView>, name: Seq<char>) -> Seq<LineView> {
    lines.map_values(
        |l: LineView|
            match l.item {
                crate::model::ItemView::Task(t) => LineView {
                    item: crate::model::ItemView::Task(TaskView { file: Some(name), ..t }),
                    ending: l.ending,
                },
                _ => l,
            },
    )
}

fn stamp(doc: &Doc, name: &String) -> (r: Doc)
    requires
        doc.wf(),
    ensures
        r.wf(),
        r@ == stamped(doc@, name@),
{
    let mut lines: Vec<Line> = Vec::new();
    let mut i: usize = 0;
    while i < doc.lines.len()
        invariant
            doc.wf(),
            i <= doc.lines@.len(),
            lines@.len() == i,
            forall|k: int| 0 <= k < i ==> (#[trigger] lines@[k]).wf(),
            forall|k: int| 0 <= k < i ==> (#[trigger] lines@[k])@ == stamped(doc@, name@)[k],
        decreases doc.lines@.len() - i,
    {
        assert(doc.lines@[i as int].wf());
        let line = match &doc.lines[i].item {
            Item::Task(t) => {
                let mut c = t.copied();
                c.file = Some(name.clone());
                Line { item: Item::Task(c), ending: doc.lines[i].ending }
            },
            Item::Text(s) => Line { item: Item::Text(s.clone()), ending: doc.lines[i].ending },
        };
        lines.push(line);
        i += 1;
    }
    let r = Doc { lines };
    assert(r@ =~= stamped(doc@, name@));
    r
}

/// A change made in memory that still has to reach the file.
pub struct Write {
    /// Which list.
    pub which: usize,
    /// The document as it was, to put back if the file refuses the change.
    pub before: Doc,
    /// What to call the change once it is undoable; `None` clears the slot,
    /// which is what an undo itself does.
    pub undo: Option<String>,
    /// What to say once the file has it.
    pub said: String,
    /// What to say when the file refuses it.
    pub refused: String,
    /// The selected row, rewritten in place, for a change that marks rather
    /// than moves.
    pub row: Option<Task>,
}

/// What a key asks of the lists: only something to say, or a write.
pub enum Step {
    Say(Notice),
    Write(Write),
}

/// The open lists, by file name, and one level of undo.
pub struct Lists {
    pub docs: Vec<Doc>,
    pub names: Vec<String>,
    /// The document as it was before the last change, which list it belongs
    /// to, and what to call it.
    undo: Option<(usize, Doc, String)>,
}

impl Lists {
    pub closed spec fn undo_slot(self) -> Option<(int, Seq<LineView>, Seq<char>)> {
        match self.undo {
            Some((w, d, s)) => Some((w as int, d@, s@)),
            None => None,
        }
    }

    pub closed spec fn wf(self) -> bool {
        &&& self.docs@.len() == self.names@.len()
        &&& self.docs@.len() > 0
        &&& forall|i: int| 0 <= i < self.docs@.len() ==> (#[trigger] self.docs@[i]).wf()
        &&& (self.undo matches Some((w, d, _)) ==> w < self.docs@.len() && d.wf())
    }

    pub closed spec fn views(self) -> Seq<Seq<LineView>> {
        self.docs@.map_values(|d: Doc| d@)
    }

    pub closed spec fn list_names(self) -> Seq<Seq<char>> {
        names_view(self.names@)
    }

    /// The lists as read. While several are open every task carries the name
    /// of the list it came from; one list on its own is left exactly as read.
    pub fn new(docs: Vec<Doc>, names: Vec<String>) -> (r: Lists)
        requires
            docs@.len() == names@.len(),
            docs@.len() > 0,
            forall|i: int| 0 <= i < docs@.len() ==> (#[trigger] docs@[i]).wf(),
        ensures
            r.wf(),
            r.list_names() == names_view(names@),
            r.undo_slot() is None,
            r.views().len() == docs@.len(),
            forall|i: int|
                0 <= i < docs@.len() ==> #[trigger] r.views()[i] == (if docs@.len() > 1 {
                    stamped(docs@[i]@, names@[i]@)
                } else {
                    docs@[i]@
                }),
    {
        if docs.len() == 1 {
            let r = Lists { docs, names, undo: None };
            assert(r.views()[0] == docs@[0]@);
            return r;
        }
        let mut out: Vec<Doc> = Vec::new();
        let mut i: usize = 0;
        while i < docs.len()
            invariant
                docs@.len() == names@.len(),
                forall|k: int| 0 <= k < docs@.len() ==> (#[trigger] docs@[k]).wf(),
                i <= docs@.len(),
                out@.len() == i,
                forall|k: int| 0 <= k < i ==> (#[trigger] out@[k]).wf(),
                forall|k: int| 0 <= k < i ==> (#[trigger] out@[k])@ == stamped(docs@[k]@, names@[k]@),
            decreases docs@.len() - i,
        {
            assert(docs@[i as int].wf());
            out.push(stamp(&docs[i], &names[i]));
            i += 1;
        }
        Lists { docs: out, names, undo: None }
    }

    /// Which list a task on screen came from.
    pub fn which(&self, file: &Option<String>) -> (r: usize)
        requires
            self.wf(),
        ensures
            r == which_of(self.list_names(), crate::model::text_of(*file), 0),
            r < self.views().len(),
    {
        proof {
            lemma_which_of(self.list_names(), crate::model::text_of(*file), 0);
        }
        let name = match file {
            Some(f) => f,
            None => {
                return 0;
            },
        };
        let want = chars_of(name.as_str());
        let ghost nv = self.list_names();
        let mut k: usize = 0;
        while k < self.names.len()
            invariant
                self.wf(),
                nv == names_view(self.names@),
                want@ == name@,
                *file == Some(*name),
                which_of(nv, crate::model::text_of(*file), 0) == which_of(nv, crate::model::text_of(*file), k as int),
            decreases self.names@.len() - k,
        {
            if same_chars(&chars_of(self.names[k].as_str()), &want) {
                return k;
            }
            k += 1;
        }
        0
    }

    /// The file took the write: the change becomes the one level of undo, or
    /// clears it when it was an undo.
    pub fn commit(&mut self, w: Write) -> (r: Notice)
        requires
            old(self).wf(),
            w.which < old(self).views().len(),
            w.before.wf(),
        ensures
            final(self).wf(),
            final(self).views() == old(self).views(),
            final(self).list_names() == old(self).list_names(),
            final(self).undo_slot() == match w.undo {
                Some(what) => Some((w.which as int, w.before@, what@)),
                None => None,
            },
            r == Notice::Said(w.said),
    {
        self.undo = match w.undo {
            Some(what) => Some((w.which, w.before, what)),
            None => None,
        };
        Notice::Said(w.said)
    }

    /// The file refused the write: its document is put back as it was, and
    /// the undo slot is kept.
    pub fn revert(&mut self, w: Write) -> (r: Notice)
        requires
            old(self).wf(),
            w.which < old(self).views().len(),
            w.before.wf(),
        ensures
            final(self).wf(),
            final(self).views() == old(self).views().update(w.which as int, w.before@),
            final(self).list_names() == old(self).list_names(),
            final(self).undo_slot() == old(self).undo_slot(),
            r == Notice::Warned(w.refused),
    {
        let ghost before = self.views();
        self.docs.set(w.which, w.before);
        assert(self.views() =~= before.update(w.which as int, w.before@));
        Notice::Warned(w.refused)
    }
}

/// What `spc` and `d` turn a state into: each key goes there, and the same
/// key brings it back.
pub open spec fn flipped(s: State, cancel: bool) -> State {
    if cancel {
        if s == State::Cancelled {
            State::Open
        } else {
            State::Cancelled
        }
    } else if s == State::Done {
        State::Open
    } else {
        State::Done
    }
}

pub open spec fn doing_word(to: State) -> Seq<char> {
    match to {
        State::Done => seq!['t', 'i', 'c', 'k', 'i', 'n', 'g'],
        State::Open => seq!['r', 'e', 'o', 'p', 'e', 'n', 'i', 'n', 'g'],
        State::Cancelled => seq!['c', 'a', 'n', 'c', 'e', 'l', 'l', 'i', 'n', 'g'],
    }
}

pub open spec fn done_word(to: State) -> Seq<char> {
    match to {
        State::Done => seq!['d', 'o', 'n', 'e'],
        State::Open => seq!['r', 'e', 'o', 'p', 'e', 'n', 'e', 'd'],
        State::Cancelled => seq!['c', 'a', 'n', 'c', 'e', 'l', 'l', 'e', 'd'],
    }
}

/// What the bottom line says when a change to a list is refused.
pub open spec fn refused_text() -> Seq<char> {
    "changed on disk - nothing was written.  r reload"@
}

/// Only something to say, and nothing changed.
pub open spec fn said_only(r: Step, text: Seq<char>, old: Lists, new: Lists) -> bool {
    &&& r matches Step::Say(n) && notice_text(n) == Some((false, text))
    &&& new.views() == old.views()
    &&& new.undo_slot() == old.undo_slot()
}

/// The selected task, found again in its list: which list, and which line.
pub open spec fn found(l: Lists, t: Task) -> Option<(int, int)> {
    let w = which_of(l.list_names(), crate::model::text_of(t.file), 0);
    match line_of_raw(l.docs_lines(w), t.raw@, 0) {
        Some(i) => Some((w, i)),
        None => None,
    }
}

fn say(text: &str) -> (r: Step)
    ensures
        r matches Step::Say(n) && notice_text(n) == Some((false, text@)),
{
    Step::Say(Notice::Said(String::from_str(text)))
}

impl Lists {
    pub closed spec fn docs_lines(self, w: int) -> Seq<Line> {
        self.docs@[w].lines@
    }

    /// `spc` ticks the selected task or opens it again; `d` cancels it or
    /// opens it again. The row is rewritten in place and the list it came
    /// from is to be written.
    pub fn restate(&mut self, task: Option<&Task>, cancel: bool, today: Date) -> (r: Step)
        requires
            old(self).wf(),
            today.wf(),
        ensures
            final(self).wf(),
            final(self).list_names() == old(self).list_names(),
            match task {
                None => said_only(r, "nothing to tick here"@, *old(self), *final(self)),
                Some(t) => match found(*old(self), *t) {
                    None => said_only(r, "nothing to tick here"@, *old(self), *final(self)),
                    Some((w, i)) => {
                        let line = old(self).docs_lines(w)[i];
                        let was = line.item->Task_0;
                        let to = flipped(was.state, cancel);
                        if was.raw@.len() + 32 < usize::MAX {
                            r matches Step::Write(wr) && wr.row matches Some(nt) && {
                                &&& wr.which == w
                                &&& wr.before.wf()
                                &&& wr.before@ == old(self).views()[w]
                                &&& restate_post(was, nt, to, today)
                                &&& final(self).views() == old(self).views().update(
                                    w,
                                    old(self).views()[w].update(
                                        i,
                                        LineView { item: crate::model::ItemView::Task(nt@), ending: line.ending },
                                    ),
                                )
                                &&& final(self).undo_slot() == old(self).undo_slot()
                                &&& wr.undo matches Some(u) && u@ == doing_word(to) + seq![' '] + clean(was.title@)
                                &&& wr.said@ == done_word(to) + seq![':', ' '] + clean(was.title@) + "    u undo"@
                                &&& wr.refused@ == refused_text()
                            }
                        } else {
                            said_only(r, "nothing to tick here"@, *old(self), *final(self))
                        }
                    },
                },
            },
    {
        let t = match task {
            Some(t) => t,
            None => {
                return say("nothing to tick here");
            },
        };
        let w = self.which(&t.file);
        let line = match self.docs[w].line_of(t.raw.as_str()) {
            Some(i) => i,
            None => {
                assert(self.docs_lines(w as int) == self.docs@[w as int].lines@);
                assert(found(*self, *t) is None);
                return say("nothing to tick here");
            },
        };
        proof {
            crate::model::lemma_line_of_raw(self.docs@[w as int].lines@, t.raw@, 0);
            assert(self.docs_lines(w as int) == self.docs@[w as int].lines@);
            assert(found(*self, *t) == Some((w as int, line as int)));
        }
        let was: &Task = match &self.docs[w].lines[line].item {
            Item::Task(x) => x,
            Item::Text(_) => {
                return say("nothing to tick here");
            },
        };
        if chars_of(was.raw.as_str()).len() >= usize::MAX - 32 {
            return say("nothing to tick here");
        }
        let to = if cancel {
            if was.state == State::Cancelled {
                State::Open
            } else {
                State::Cancelled
            }
        } else if was.state == State::Done {
            State::Open
        } else {
            State::Done
        };
        let title = plain(was.title.as_str());
        let before = self.docs[w].copied();
        let mut doc = self.docs[w].copied();
        proof {
            assert(self.docs@[w as int].wf());
            assert(doc@.len() == doc.lines@.len());
            assert(doc.lines@.len() == self.docs@[w as int].lines@.len());
            assert(doc.lines@[line as int].wf());
            assert(doc@[line as int] == self.docs@[w as int]@[line as int]);
            assert(doc.lines@[line as int]@ == self.docs@[w as int].lines@[line as int]@);
            assert(doc.lines@[line as int].item is Task);
            assert(doc.lines@[line as int].item->Task_0.raw@ == was.raw@);
        }
        let ghost lines0 = doc.lines@;
        let updated = match doc.task_at_mut(line) {
            Some(nt) => {
                nt.set_state(to, today);
                nt.copied()
            },
            None => {
                return say("nothing to tick here");
            },
        };
        proof {
            assert forall|k: int| 0 <= k < doc.lines@.len() implies (#[trigger] doc.lines@[k]).wf() by {
                if k != line {
                    assert(doc.lines@[k] == lines0[k]);
                }
            }
        }
        let ghost views0 = self.views();
        self.docs.set(w, doc);
        proof {
            assert(self.views()[w as int] =~= views0[w as int].update(
                line as int,
                LineView { item: crate::model::ItemView::Task(updated@), ending: lines0[line as int].ending },
            ));
            assert(self.views() =~= views0.update(w as int, self.views()[w as int]));
        }
        let mut undo = String::new();
        let mut said = String::new();
        proof {
            reveal_strlit("ticking");
            reveal_strlit("reopening");
            reveal_strlit("cancelling");
            reveal_strlit("done");
            reveal_strlit("reopened");
            reveal_strlit("cancelled");
            reveal_strlit(": ");
        }
        let (doing, done) = match to {
            State::Done => ("ticking", "done"),
            State::Open => ("reopening", "reopened"),
            State::Cancelled => ("cancelling", "cancelled"),
        };
        push_str(&mut undo, doing);
        crate::strs::push_char(&mut undo, ' ');
        push_str(&mut undo, title.as_str());
        push_str(&mut said, done);
        push_str(&mut said, ": ");
        push_str(&mut said, title.as_str());
        push_str(&mut said, "    u undo");
        assert(undo@ =~= doing_word(to) + seq![' '] + clean(was.title@));
        assert(said@ =~= done_word(to) + seq![':', ' '] + clean(was.title@) + "    u undo"@);
        Step::Write(
            Write {
                which: w,
                before,
                undo: Some(undo),
                said,
                refused: String::from_str("changed on disk - nothing was written.  r reload"),
                row: Some(updated),
            },
        )
    }
}

/// `lines` with line `i` taken out; the last line's missing ending passes to
/// the line before it, so a file without a final newline keeps not having
/// one.
pub open spec fn removed(lines: Seq<Line>, i: int) -> Seq<Line> {
    if i == lines.len() - 1 && lines[i].ending == crate::model::Ending::Missing && i > 0 {
        lines.remove(i).update(i - 1, Line { ending: crate::model::Ending::Missing, ..lines[i - 1] })
    } else {
        lines.remove(i)
    }
}

/// Every list's lines but list `w`'s as they were.
pub open spec fn others_kept(old: Lists, new: Lists, w: int) -> bool {
    &&& new.views().len() == old.views().len()
    &&& forall|k: int| 0 <= k < old.views().len() && k != w ==> #[trigger] new.docs_lines(k) == old.docs_lines(k)
}

impl Lists {
    /// `X`: the selected task goes at once, with `u` to bring it back.
    pub fn delete(&mut self, task: Option<&Task>) -> (r: Step)
        requires
            old(self).wf(),
        ensures
            final(self).wf(),
            final(self).list_names() == old(self).list_names(),
            final(self).undo_slot() == old(self).undo_slot(),
            match task {
                None => said_only(r, "nothing to delete here"@, *old(self), *final(self)),
                Some(t) => match found(*old(self), *t) {
                    None => said_only(r, "nothing to delete here"@, *old(self), *final(self)),
                    Some((w, i)) => {
                        let was = old(self).docs_lines(w)[i].item->Task_0;
                        r matches Step::Write(wr) && {
                            &&& wr.which == w
                            &&& wr.before.wf()
                            &&& wr.before@ == old(self).views()[w]
                            &&& wr.row is None
                            &&& final(self).docs_lines(w) == removed(old(self).docs_lines(w), i)
                            &&& others_kept(*old(self), *final(self), w)
                            &&& wr.undo matches Some(u) && u@ == "deleting \""@ + clean(was.title@) + "\""@
                            &&& wr.said@ == "deleted \""@ + clean(was.title@) + "\"    u undo"@
                            &&& wr.refused@ == refused_text()
                        }
                    },
                },
            },
    {
        let t = match task {
            Some(t) => t,
            None => {
                return say("nothing to delete here");
            },
        };
        let w = self.which(&t.file);
        let line = match self.docs[w].line_of(t.raw.as_str()) {
            Some(i) => i,
            None => {
                assert(self.docs_lines(w as int) == self.docs@[w as int].lines@);
                assert(found(*self, *t) is None);
                return say("nothing to delete here");
            },
        };
        proof {
            crate::model::lemma_line_of_raw(self.docs@[w as int].lines@, t.raw@, 0);
            assert(self.docs_lines(w as int) == self.docs@[w as int].lines@);
            assert(found(*self, *t) == Some((w as int, line as int)));
        }
        let before = self.docs[w].copied();
        let mut doc = self.docs.remove(w);
        let ghost lines0 = doc.lines@;
        let gone = match doc.remove_task(line) {
            Some(g) => g,
            None => {
                self.docs.insert(w, doc);
                return say("nothing to delete here");
            },
        };
        proof {
            assert forall|k: int| 0 <= k < doc.lines@.len() implies (#[trigger] doc.lines@[k]).wf() by {
                assert(forall|j: int| 0 <= j < lines0.len() ==> (#[trigger] lines0[j]).wf());
                if line == lines0.len() - 1 && lines0[line as int].ending == crate::model::Ending::Missing && line > 0 {
                    if k == line - 1 {
                        assert(lines0[k].wf());
                    } else {
                        assert(doc.lines@[k] == lines0.remove(line as int)[k]);
                    }
                } else {
                    assert(doc.lines@[k] == lines0.remove(line as int)[k]);
                }
            }
        }
        let ghost mid = self.docs@;
        self.docs.insert(w, doc);
        proof {
            assert forall|k: int| 0 <= k < self.docs@.len() implies (#[trigger] self.docs@[k]).wf() by {
                if k < w {
                    assert(self.docs@[k] == old(self).docs@[k]);
                } else if k > w {
                    assert(self.docs@[k] == old(self).docs@[k]);
                }
            }
            assert forall|k: int| 0 <= k < old(self).views().len() && k != w implies #[trigger] self.docs_lines(k)
                == old(self).docs_lines(k) by {
                assert(self.docs@[k] == old(self).docs@[k]);
            }
        }
        let title = plain(gone.title.as_str());
        proof {
            reveal_strlit("deleting \"");
            reveal_strlit("\"");
            reveal_strlit("deleted \"");
            reveal_strlit("\"    u undo");
        }
        let mut undo = String::new();
        push_str(&mut undo, "deleting \"");
        push_str(&mut undo, title.as_str());
        push_str(&mut undo, "\"");
        let mut said = String::new();
        push_str(&mut said, "deleted \"");
        push_str(&mut said, title.as_str());
        push_str(&mut said, "\"    u undo");
        Step::Write(
            Write {
                which: w,
                before,
                undo: Some(undo),
                said,
                refused: String::from_str("changed on disk - nothing was written.  r reload"),
                row: None,
            },
        )
    }

    /// `u`: the list the last change touched is put back as it was before
    /// it. The slot stays until the file has taken the undo.
    pub fn undo(&mut self) -> (r: Step)
        requires
            old(self).wf(),
        ensures
            final(self).wf(),
            final(self).list_names() == old(self).list_names(),
            final(self).undo_slot() == old(self).undo_slot(),
            match old(self).undo_slot() {
                None => said_only(r, "nothing to undo"@, *old(self), *final(self)),
                Some((w, restored, what)) => r matches Step::Write(wr) && {
                    &&& wr.which == w
                    &&& wr.before.wf()
                    &&& wr.before@ == old(self).views()[w]
                    &&& wr.row is None
                    &&& final(self).views() == old(self).views().update(w, restored)
                    &&& wr.undo is None
                    &&& wr.said@ == "undone: "@ + what
                    &&& wr.refused@ == refused_text()
                },
            },
    {
        let (w, restored, what) = match &self.undo {
            Some((w, d, what)) => (*w, d.copied(), what.clone()),
            None => {
                return say("nothing to undo");
            },
        };
        let current = self.docs[w].copied();
        let ghost views0 = self.views();
        let ghost back = restored@;
        self.docs.set(w, restored);
        assert(self.views() =~= views0.update(w as int, back));
        let mut said = String::new();
        proof {
            reveal_strlit("undone: ");
        }
        push_str(&mut said, "undone: ");
        push_str(&mut said, what.as_str());
        Step::Write(
            Write {
                which: w,
                before: current,
                undo: None,
                said,
                refused: String::from_str("changed on disk - nothing was written.  r reload"),
                row: None,
            },
        )
    }
}

/// A warning to show, and nothing changed.
pub open spec fn warned_only(r: Step, text: Seq<char>, old: Lists, new: Lists) -> bool {
    &&& r matches Step::Say(n) && notice_text(n) == Some((true, text))
    &&& new.views() == old.views()
    &&& new.undo_slot() == old.undo_slot()
}

/// The first list holding a task written exactly `raw`.
pub open spec fn list_with_raw(l: Lists, raw: Seq<char>, k: int) -> Option<int>
    decreases l.views().len() - k,
{
    if k < 0 || k >= l.views().len() {
        None
    } else if line_of_raw(l.docs_lines(k), raw, 0) is Some {
        Some(k)
    } else {
        list_with_raw(l, raw, k + 1)
    }
}

/// The name a task captured into list `w` carries: the list's while
/// several are open, none while one is.
pub open spec fn stamp_of(l: Lists, w: int) -> Option<Seq<char>> {
    if l.list_names().len() > 1 {
        Some(l.list_names()[w])
    } else {
        None
    }
}

/// A write of the line typed into the box: which list, what it was, and
/// what the bottom line says either way.
pub open spec fn typed_write(r: Step, old: Lists, new: Lists, w: int, what: Seq<char>, title: Seq<char>) -> bool {
    r matches Step::Write(wr) && {
        &&& wr.which == w
        &&& wr.before.wf()
        &&& wr.before@ == old.views()[w]
        &&& wr.row is None
        &&& others_kept(old, new, w)
        &&& new.undo_slot() == old.undo_slot()
        &&& wr.undo matches Some(u) && u@ == what + seq![':', ' '] + clean(title)
        &&& wr.said@ == what + seq![':', ' '] + clean(title) + "    u undo"@
        &&& wr.refused@ == "changed on disk - re-read, then save again"@
    }
}

pub open spec fn raw_of(p: Purpose) -> Option<Seq<char>> {
    match p {
        Purpose::Edit(r) | Purpose::Postpone(r) => Some(r@),
        _ => None,
    }
}

pub proof fn lemma_list_with_raw(l: Lists, raw: Seq<char>, k: int)
    requires
        0 <= k,
    ensures
        list_with_raw(l, raw, k) matches Some(w) ==> k <= w < l.views().len() && line_of_raw(
            l.docs_lines(w),
            raw,
            0,
        ) is Some,
    decreases l.views().len() - k,
{
    if k < l.views().len() && line_of_raw(l.docs_lines(k), raw, 0) is None {
        lemma_list_with_raw(l, raw, k + 1);
    }
}

impl Lists {
    fn find_list(&self, raw: &str) -> (r: Option<usize>)
        requires
            self.wf(),
        ensures
            match r {
                Some(w) => list_with_raw(*self, raw@, 0) == Some(w as int) && w < self.views().len(),
                None => list_with_raw(*self, raw@, 0) is None,
            },
    {
        let mut k: usize = 0;
        while k < self.docs.len()
            invariant
                self.wf(),
                list_with_raw(*self, raw@, 0) == list_with_raw(*self, raw@, k as int),
            decreases self.docs@.len() - k,
        {
            assert(self.docs_lines(k as int) == self.docs@[k as int].lines@);
            if self.docs[k].line_of(raw).is_some() {
                return Some(k);
            }
            k += 1;
        }
        None
    }

    /// Saves what was typed on the input line: a new task into list
    /// `target`, or the selected one rewritten, or its date put off by what
    /// `p` was told. A rewrite keeps the line's prefix byte for byte.
    #[verifier::rlimit(100)]
    #[verifier::spinoff_prover]
    pub fn save_typed(&mut self, input: &Input, today: Date) -> (r: Step)
        requires
            old(self).wf(),
            today.wf(),
        ensures
            final(self).wf(),
            final(self).list_names() == old(self).list_names(),
            ({
                let typed = crate::strs::trim(input.text@);
                let postponing = input.purpose is Postpone;
                let title = crate::parse::join(crate::capture::captured(typed, today).title);
                if typed.len() == 0 {
                    said_only(r, "nothing typed"@, *old(self), *final(self))
                } else if postponing && crate::capture::later_days(typed, today) is None {
                    warned_only(r, "try 2, 3d, 1w, fri - a year at most, or write the date"@, *old(self), *final(self))
                } else if input.purpose is Edit && list_word(typed, today) is Some {
                    warned_only(
                        r,
                        "$"@ + list_word(typed, today)->0 + " moves nothing - $ picks the list for a new task"@,
                        *old(self),
                        *final(self),
                    )
                } else if !postponing && crate::strs::trim(clean(title)).len() == 0 {
                    said_only(r, "nothing typed"@, *old(self), *final(self))
                } else {
                    match raw_of(input.purpose) {
                        None => match capture_into_of(typed, old(self).list_names(), today) {
                            None => warned_only(
                                r,
                                "no list "@ + list_word(typed, today)->0 + ".md to capture into"@,
                                *old(self),
                                *final(self),
                            ),
                            Some(w) => exists|c: Task| {
                                &&& crate::capture::is_capture(Task { file: None, ..c }, typed, today)
                                &&& crate::model::text_of(c.file) == stamp_of(*old(self), w)
                                &&& final(self).docs_lines(w) == crate::model::pushed(old(self).docs_lines(w), c)
                                &&& typed_write(r, *old(self), *final(self), w, "added"@, title)
                            },
                        },
                        Some(raw) => match list_with_raw(*old(self), raw, 0) {
                            None => warned_only(
                                r,
                                "that task is not there any more.  esc, then look again"@,
                                *old(self),
                                *final(self),
                            ),
                            Some(w) => {
                                let i = line_of_raw(old(self).docs_lines(w), raw, 0)->0;
                                let line = old(self).docs_lines(w)[i];
                                let was = line.item->Task_0;
                                if postponing {
                                    if was.raw@.len() + 32 < usize::MAX {
                                        exists|d: Date, nt: Task| {
                                            &&& d.wf()
                                            &&& d.number() == crate::capture::later_days(typed, today)->0
                                            &&& crate::model::postpone_post(was, d, nt)
                                            &&& final(self).docs_lines(w) == old(self).docs_lines(w).update(
                                                i,
                                                Line { item: Item::Task(nt), ending: line.ending },
                                            )
                                            &&& typed_write(r, *old(self), *final(self), w, "put off"@, was.title@)
                                        }
                                    } else {
                                        warned_only(
                                            r,
                                            "that task is not there any more.  esc, then look again"@,
                                            *old(self),
                                            *final(self),
                                        )
                                    }
                                } else if was.body_spec() == input.text@ {
                                    said_only(r, "unchanged"@, *old(self), *final(self))
                                } else {
                                    exists|c: Task| {
                                        &&& crate::capture::is_capture(c, typed, today)
                                        &&& if was.raw@.len() < usize::MAX / 4 && c.raw@.len() < usize::MAX / 4 {
                                            exists|nt: Task| {
                                                &&& crate::model::retype_post(was, c, nt)
                                                &&& final(self).docs_lines(w) == old(self).docs_lines(w).update(
                                                    i,
                                                    Line { item: Item::Task(nt), ending: line.ending },
                                                )
                                                &&& typed_write(r, *old(self), *final(self), w, "edited"@, title)
                                            }
                                        } else {
                                            warned_only(
                                                r,
                                                "that task is not there any more.  esc, then look again"@,
                                                *old(self),
                                                *final(self),
                                            )
                                        }
                                    }
                                }
                            },
                        },
                    }
                }
            }),
    {
        let typed_v = crate::strs::trimmed(&chars_of(input.text.as_str()));
        if typed_v.len() == 0 {
            return say("nothing typed");
        }
        let typed = crate::strs::string_of(&typed_v);
        let postponing = match &input.purpose {
            Purpose::Postpone(_) => true,
            _ => false,
        };
        let moved_to: Option<Date> = if postponing {
            match crate::capture::later(typed.as_str(), today) {
                Some(d) => Some(d),
                None => {
                    return Step::Say(
                        Notice::Warned(String::from_str("try 2, 3d, 1w, fri - a year at most, or write the date")),
                    );
                },
            }
        } else {
            None
        };
        let editing = match &input.purpose {
            Purpose::Edit(_) => true,
            _ => false,
        };
        if editing {
            match list_of(typed.as_str(), today) {
                Some(name) => {
                    let mut why = String::from_str("$");
                    push_str(&mut why, name.as_str());
                    push_str(&mut why, " moves nothing - $ picks the list for a new task");
                    return Step::Say(Notice::Warned(why));
                },
                None => {},
            }
        }
        let mut fields = crate::capture::capture(typed.as_str(), today);
        let title = plain(fields.title.as_str());
        if !postponing && crate::strs::trimmed(&chars_of(title.as_str())).len() == 0 {
            return say("nothing typed");
        }
        let not_there = "that task is not there any more.  esc, then look again";
        match input.purpose.raw() {
            None => {
                let names = self.names.as_slice();
                assert(names@ == self.names@);
                let w = match capture_into(typed.as_str(), names, today) {
                    Some(w) => w,
                    None => {
                        let mut why = String::from_str("no list ");
                        match list_of(typed.as_str(), today) {
                            Some(name) => push_str(&mut why, name.as_str()),
                            None => {},
                        }
                        push_str(&mut why, ".md to capture into");
                        return Step::Say(Notice::Warned(why));
                    },
                };
                assert(capture_into_of(typed@, old(self).list_names(), today) == Some(w as int));
                let before = self.docs[w].copied();
                if self.names.len() > 1 {
                    fields.file = Some(self.names[w].clone());
                }
                let ghost c = fields;
                let mut doc = self.docs.remove(w);
                let ghost lines0 = doc.lines@;
                doc.push_task(fields);
                proof {
                    crate::model::lemma_pushed_wf(lines0, c);
                }
                self.docs.insert(w, doc);
                proof {
                    self.lemma_others(*old(self), w as int);
                }
                let mut undo = String::new();
                proof {
                    reveal_strlit("added");
                    reveal_strlit(": ");
                }
                push_str(&mut undo, "added");
                push_str(&mut undo, ": ");
                push_str(&mut undo, title.as_str());
                let mut said = undo.clone();
                push_str(&mut said, "    u undo");
                assert(undo@ =~= "added"@ + seq![':', ' '] + clean(c.title@));
                let res = Step::Write(
                    Write {
                        which: w,
                        before,
                        undo: Some(undo),
                        said,
                        refused: String::from_str("changed on disk - re-read, then save again"),
                        row: None,
                    },
                );
                proof {
                    let g = crate::capture::captured(typed@, today);
                    assert(crate::capture::is_capture(Task { file: None, ..c }, typed@, today));
                    assert(c.title@ == crate::parse::join(g.title));
                    assert(self.docs_lines(w as int) == crate::model::pushed(old(self).docs_lines(w as int), c));
                    assert(typed_write(res, *old(self), *self, w as int, "added"@, crate::parse::join(g.title)));
                    assert(raw_of(input.purpose) is None);
                    assert(!(input.purpose is Edit));
                    assert(!postponing);
                    assert(exists|c2: Task| {
                        &&& crate::capture::is_capture(Task { file: None, ..c2 }, typed@, today)
                        &&& crate::model::text_of(c2.file) == stamp_of(*old(self), w as int)
                        &&& self.docs_lines(w as int) == crate::model::pushed(old(self).docs_lines(w as int), c2)
                        &&& typed_write(res, *old(self), *self, w as int, "added"@, crate::parse::join(g.title))
                    });
                    assert(typed@ == crate::strs::trim(input.text@));
                    assert(match capture_into_of(crate::strs::trim(input.text@), old(self).list_names(), today) {
                        None => false,
                        Some(w2) => exists|c2: Task| {
                            &&& crate::capture::is_capture(Task { file: None, ..c2 }, crate::strs::trim(input.text@), today)
                            &&& crate::model::text_of(c2.file) == stamp_of(*old(self), w2)
                            &&& self.docs_lines(w2) == crate::model::pushed(old(self).docs_lines(w2), c2)
                            &&& typed_write(res, *old(self), *self, w2, "added"@, crate::parse::join(g.title))
                        },
                    });
                }
                res
            },
            Some(raw) => {
                let w = match self.find_list(raw) {
                    Some(w) => w,
                    None => {
                        return Step::Say(Notice::Warned(String::from_str(not_there)));
                    },
                };
                proof {
                    lemma_list_with_raw(*self, raw@, 0);
                    assert(self.docs_lines(w as int) == self.docs@[w as int].lines@);
                }
                let i = match self.docs[w].line_of(raw) {
                    Some(i) => i,
                    None => {
                        assert(false);
                        return Step::Say(Notice::Warned(String::from_str(not_there)));
                    },
                };
                proof {
                    crate::model::lemma_line_of_raw(self.docs@[w as int].lines@, raw@, 0);
                }
                let was: &Task = match &self.docs[w].lines[i].item {
                    Item::Task(x) => x,
                    Item::Text(_) => {
                        return Step::Say(Notice::Warned(String::from_str(not_there)));
                    },
                };
                let was_len = chars_of(was.raw.as_str()).len();
                let what: &str;
                let shown: String;
                match moved_to {
                    Some(date) => {
                        if was_len >= usize::MAX - 32 {
                            return Step::Say(Notice::Warned(String::from_str(not_there)));
                        }
                        shown = plain(was.title.as_str());
                        what = "put off";
                    },
                    None => {
                        if crate::strs::same_chars(&chars_of(was.body()), &chars_of(input.text.as_str())) {
                            return say("unchanged");
                        }
                        let f_len = chars_of(fields.raw.as_str()).len();
                        if was_len >= usize::MAX / 4 || f_len >= usize::MAX / 4 {
                            let res = Step::Say(Notice::Warned(String::from_str(not_there)));
                            proof {
                                assert(crate::capture::is_capture(fields, typed@, today));
                            }
                            return res;
                        }
                        shown = title;
                        what = "edited";
                    },
                }
                let before = self.docs[w].copied();
                let ghost c = fields;
                let mut doc = self.docs.remove(w);
                let ghost lines0 = doc.lines@;
                assert(lines0[i as int].wf());
                match doc.task_at_mut(i) {
                    Some(nt) => {
                        match moved_to {
                            Some(date) => nt.postpone(date),
                            None => nt.retype(fields),
                        }
                    },
                    None => {},
                }
                let ghost newt = doc.lines@[i as int].item->Task_0;
                proof {
                    assert(doc.lines@ == lines0.update(
                        i as int,
                        Line { item: Item::Task(newt), ending: lines0[i as int].ending },
                    ));
                    assert forall|k: int| 0 <= k < doc.lines@.len() implies (#[trigger] doc.lines@[k]).wf() by {
                        if k != i {
                            assert(doc.lines@[k] == lines0[k]);
                        }
                    }
                }
                self.docs.insert(w, doc);
                proof {
                    self.lemma_others(*old(self), w as int);
                }
                let mut undo = String::new();
                proof {
                    reveal_strlit("put off");
                    reveal_strlit("edited");
                    reveal_strlit(": ");
                }
                push_str(&mut undo, what);
                push_str(&mut undo, ": ");
                push_str(&mut undo, shown.as_str());
                proof {
                    assert(": "@ =~= seq![':', ' ']);
                }
                assert(undo@ =~= what@ + seq![':', ' '] + shown@);
                let mut said = undo.clone();
                push_str(&mut said, "    u undo");
                let res = Step::Write(
                    Write {
                        which: w,
                        before,
                        undo: Some(undo),
                        said,
                        refused: String::from_str("changed on disk - re-read, then save again"),
                        row: None,
                    },
                );
                proof {
                    let g = crate::capture::captured(typed@, today);
                    match moved_to {
                        Some(d) => {
                            assert(crate::model::postpone_post(*was, d, newt));
                            assert(typed_write(res, *old(self), *self, w as int, "put off"@, was.title@));
                        },
                        None => {
                            assert(crate::capture::is_capture(c, typed@, today));
                            assert(crate::model::retype_post(*was, c, newt));
                            assert(typed_write(res, *old(self), *self, w as int, "edited"@, crate::parse::join(g.title)));
                            assert(was.raw@.len() < usize::MAX / 4 && c.raw@.len() < usize::MAX / 4);
                        },
                    }
                }
                res
            },
        }
    }

    /// Every list but `w` is as it was in `old`, and every list is whole.
    proof fn lemma_others(self, old: Lists, w: int)
        requires
            old.wf(),
            0 <= w < old.docs@.len(),
            self.docs@.len() == old.docs@.len(),
            self.docs@[w].wf(),
            forall|k: int| 0 <= k < old.docs@.len() && k != w ==> self.docs@[k] == old.docs@[k],
            self.names == old.names,
            self.undo == old.undo,
        ensures
            self.wf(),
            others_kept(old, self, w),
    {
        assert forall|k: int| 0 <= k < self.docs@.len() implies (#[trigger] self.docs@[k]).wf() by {
            if k != w {
                assert(self.docs@[k] == old.docs@[k]);
            }
        }
        assert forall|k: int| 0 <= k < old.views().len() && k != w implies #[trigger] self.docs_lines(k)
            == old.docs_lines(k) by {
            assert(self.docs@[k] == old.docs@[k]);
        }
    }
}


/// Undo takes back the last change that reached its file: a change made to
/// list `w` (what `restate`, `delete` and `save_typed` promise of the list
/// they write), then `commit` once the file has it, then `undo`, and the
/// lists read exactly as they did before the change.
pub proof fn law_undo_takes_back_a_change(
    start: Lists,
    changed: Lists,
    committed: Lists,
    undone: Lists,
    w: int,
    edited: Seq<LineView>,
    what: Seq<char>,
)
    requires
        start.wf(),
        0 <= w < start.views().len(),
        changed.views() == start.views().update(w, edited),
        committed.views() == changed.views(),
        committed.undo_slot() == Some((w, start.views()[w], what)),
        undone.views() == committed.views().update(w, start.views()[w]),
    ensures
        undone.views() == start.views(),
{
    assert(undone.views() =~= start.views());
}

} // verus!
