//! What a key does to what is on screen: the overlay that is open, the help
//! box, and the line at the bottom. The decisions are made here; the work
//! that reaches the lists, the files or the terminal is handed back as an
//! effect for the caller to carry out.

use vstd::prelude::*;

use crate::date::Date;
use crate::form::{opened_form, pressed, Form};
use crate::keys::{action, action_of, typing, typed_of, Action, Key, Typed};
use crate::layout::sub0;
use crate::live::Notice;
use crate::model::Task;
use crate::screen::Fold;
use crate::layout::string_from;
use crate::ui::{
    backed, deleted_after, field_applied, field_closed, field_stepped, opened_adding,
    opened_duplicating, opened_editing, opened_postponing, toggled, typed_in, went_end, went_home,
    went_left, went_right, Input,
};

verus! {

/// What is open over the list.
pub enum Open {
    Nothing,
    /// The one-line box.
    Line(Input),
    /// The add form.
    Form(Form),
}

/// The state of the screen that is not the lists themselves.
pub struct Session {
    pub helping: bool,
    pub open: Open,
    pub notice: Notice,
}

/// What the caller has to do after a key: nothing more, or one piece of
/// work on the lists, the screen's cursor, the files or the terminal.
pub enum Effect {
    Nothing,
    Quit,
    /// Save the line in the open box or form, then hand the answer to
    /// `Session::answered`.
    Save,
    /// Tick the selected task, or cancel it when the flag is set.
    Restate(bool),
    Delete,
    Undo,
    Move(isize),
    Top,
    Bottom,
    Fold(Fold),
    Edit,
    Reload,
}

impl Session {
    pub open spec fn wf(self) -> bool {
        match self.open {
            Open::Nothing => true,
            Open::Line(i) => i.wf(),
            Open::Form(f) => f.wf(),
        }
    }

    /// The start: nothing open, the hints at the bottom.
    pub fn new() -> (r: Session)
        ensures
            r.wf(),
            !r.helping,
            r.open is Nothing,
            r.notice == Notice::Hints,
    {
        Session { helping: false, open: Open::Nothing, notice: Notice::Hints }
    }

    /// The line the open box or form would save.
    pub fn line(&self) -> (r: Option<&Input>)
        ensures
            match self.open {
                Open::Nothing => r is None,
                Open::Line(i) => r matches Some(j) && *j == i,
                Open::Form(f) => r matches Some(j) && *j == f.line(),
            },
    {
        match &self.open {
            Open::Nothing => None,
            Open::Line(i) => Some(i),
            Open::Form(f) => Some(f.input()),
        }
    }

    /// The answer to a save: a refusal keeps the box or form open, with the
    /// line in it; anything else closes it. Either way it is what the
    /// bottom line says next.
    pub fn answered(&mut self, notice: Notice)
        requires
            old(self).wf(),
        ensures
            final(self).wf(),
            final(self).helping == old(self).helping,
            final(self).notice == notice,
            final(self).open == if notice is Warned {
                old(self).open
            } else {
                Open::Nothing
            },
    {
        let keep = match notice {
            Notice::Warned(_) => true,
            _ => false,
        };
        if !keep {
            self.open = Open::Nothing;
        }
        self.notice = notice;
    }
}

/// A key in the one-line box, as the box's own methods take it: the state
/// after and the effect.
pub open spec fn line_keyed(o: Input, n: Open, key: Key, today: Date, r: Effect) -> bool {
    match typed_of(key) {
        Typed::Cancel => if o.field is Some {
            &&& r is Nothing
            &&& n matches Open::Line(m)
            &&& field_closed(o, m)
        } else {
            &&& r is Nothing
            &&& n is Nothing
        },
        Typed::Save => if o.field is Some {
            &&& r is Nothing
            &&& n matches Open::Line(m)
            &&& field_applied(o, m)
        } else {
            &&& r is Save
            &&& n == Open::Line(o)
        },
        Typed::Ignore => r is Nothing && n == Open::Line(o),
        t => {
            &&& r is Nothing
            &&& n matches Open::Line(m)
            &&& match t {
                Typed::Char(c) => typed_in(o, m, c),
                Typed::Back => backed(o, m),
                Typed::Delete => deleted_after(o, m),
                Typed::Left => went_left(o, m),
                Typed::Right => went_right(o, m),
                Typed::Home => went_home(o, m),
                Typed::End => went_end(o, m),
                Typed::Field => toggled(o, m, today),
                Typed::Step(by) => field_stepped(o, m, by as int),
                _ => false,
            }
        },
    }
}

/// The bottom line says `text`, and nothing else changed.
pub open spec fn only_said(s: Session, n: Session, text: Seq<char>) -> bool {
    &&& n.open == s.open
    &&& n.helping == s.helping
    &&& n.notice matches Notice::Said(w)
    &&& w@ == text
}

/// A box or form opened over the list, and the help box put away.
pub open spec fn opened_over(s: Session, n: Session) -> bool {
    !n.helping && n.notice == s.notice
}

/// A key on the list, with nothing open over it.
pub open spec fn list_keyed(
    s: Session,
    n: Session,
    key: Key,
    pane: (u16, u16),
    task: Option<Task>,
    lists: Seq<Seq<char>>,
    today: Date,
    r: Effect,
) -> bool {
    let same = n == s;
    match action_of(key) {
        Action::Quit => r is Quit && same,
        Action::Move(k) => {
            &&& r == Effect::Move(k)
            &&& n.open == s.open
            &&& n.helping == s.helping
            &&& n.notice == Notice::Hints
        },
        Action::Top => r is Top && same,
        Action::Bottom => r is Bottom && same,
        Action::Toggle => r == Effect::Restate(false) && same,
        Action::Cancel => r == Effect::Restate(true) && same,
        Action::Delete => r is Delete && same,
        Action::Undo => r is Undo && same,
        Action::Fold(w) => r == Effect::Fold(w) && same,
        Action::Edit => r is Edit && same,
        Action::Reload => r is Reload && same,
        Action::Add => {
            &&& r is Nothing
            &&& opened_over(s, n)
            &&& if sub0(pane.1 as int, 1) >= 15 && pane.0 >= 40 {
                &&& n.open matches Open::Form(f)
                &&& opened_form(f, today, lists)
            } else {
                &&& n.open matches Open::Line(i)
                &&& opened_adding(i, today)
            }
        },
        Action::Quick => {
            &&& r is Nothing
            &&& opened_over(s, n)
            &&& n.open matches Open::Line(i)
            &&& opened_adding(i, today)
        },
        Action::Change => {
            &&& r is Nothing
            &&& match task {
                Some(t) => {
                    &&& opened_over(s, n)
                    &&& n.open matches Open::Line(i)
                    &&& opened_editing(i, t)
                },
                None => only_said(s, n, "nothing to edit here"@),
            }
        },
        Action::Duplicate => {
            &&& r is Nothing
            &&& match task {
                Some(t) => {
                    &&& opened_over(s, n)
                    &&& n.open matches Open::Line(i)
                    &&& opened_duplicating(i, t, today)
                },
                None => only_said(s, n, "nothing to copy here"@),
            }
        },
        Action::Postpone => {
            &&& r is Nothing
            &&& match task {
                Some(t) => {
                    &&& opened_over(s, n)
                    &&& n.open matches Open::Line(i)
                    &&& opened_postponing(i, t)
                },
                None => only_said(s, n, "nothing to put off here"@),
            }
        },
        Action::Help => {
            &&& r is Nothing
            &&& n.open == s.open
            &&& n.notice == s.notice
            &&& n.helping == !s.helping
        },
        Action::Close => {
            &&& r is Nothing
            &&& n.open == s.open
            &&& n.notice == s.notice
            &&& !n.helping
        },
        Action::Say(what) => r is Nothing && only_said(s, n, what@),
        _ => r is Nothing && same,
    }
}

impl Session {
    /// One key. With the form open it goes to the form; with the box open,
    /// to the box, where `esc` closes the date field before the box and `⏎`
    /// applies the field before it saves; with nothing open, to the list.
    /// What the key asks of the lists, the files or the terminal comes back.
    pub fn on_key(&mut self, key: Key, pane: (u16, u16), task: Option<&Task>, lists: &[String], today: Date) -> (r: Effect)
        requires
            old(self).wf(),
            today.wf(),
            task matches Some(t) ==> t.wf() && t.raw@.len() + 32 < usize::MAX,
        ensures
            final(self).wf(),
            match old(self).open {
                Open::Form(f) => {
                    &&& final(self).helping == old(self).helping
                    &&& exists|g: Form, t: Typed|
                        #![trigger pressed(f, g, key, t)]
                        {
                            &&& pressed(f, g, key, t)
                            &&& if t == Typed::Cancel {
                                &&& r is Nothing
                                &&& final(self).open is Nothing
                                &&& final(self).notice == Notice::Hints
                            } else {
                                &&& r == (if t == Typed::Save { Effect::Save } else { Effect::Nothing })
                                &&& final(self).open == Open::Form(g)
                                &&& final(self).notice == old(self).notice
                            }
                        }
                },
                Open::Line(i) => {
                    &&& final(self).helping == old(self).helping
                    &&& line_keyed(i, final(self).open, key, today, r)
                    &&& final(self).notice == if final(self).open is Nothing {
                        Notice::Hints
                    } else {
                        old(self).notice
                    }
                },
                Open::Nothing => list_keyed(
                    *old(self),
                    *final(self),
                    key,
                    pane,
                    match task {
                        Some(t) => Some(*t),
                        None => None,
                    },
                    crate::live::names_view(lists@),
                    today,
                    r,
                ),
            },
    {
        let mut open = Open::Nothing;
        std::mem::swap(&mut open, &mut self.open);
        match open {
            Open::Form(mut f) => {
                let t = f.press(key);
                match t {
                    Typed::Cancel => {
                        self.notice = Notice::Hints;
                        Effect::Nothing
                    },
                    Typed::Save => {
                        self.open = Open::Form(f);
                        Effect::Save
                    },
                    _ => {
                        self.open = Open::Form(f);
                        Effect::Nothing
                    },
                }
            },
            Open::Line(mut i) => {
                let t = typing(key);
                match t {
                    Typed::Char(c) => i.insert(c),
                    Typed::Back => i.back(),
                    Typed::Delete => i.delete(),
                    Typed::Left => i.left(),
                    Typed::Right => i.right(),
                    Typed::Home => i.home(),
                    Typed::End => i.end(),
                    Typed::Field => i.toggle_field(today),
                    Typed::Step(by) => i.step(by),
                    Typed::Cancel => {
                        if !i.close_field() {
                            self.notice = Notice::Hints;
                            return Effect::Nothing;
                        }
                    },
                    Typed::Save => {
                        if !i.apply_field() {
                            self.open = Open::Line(i);
                            return Effect::Save;
                        }
                    },
                    Typed::Ignore => {},
                }
                self.open = Open::Line(i);
                Effect::Nothing
            },
            Open::Nothing => self.on_list(action(key), pane, task, lists, today),
        }
    }

    fn on_list(&mut self, a: Action, pane: (u16, u16), task: Option<&Task>, lists: &[String], today: Date) -> (r: Effect)
        requires
            old(self).open is Nothing,
            today.wf(),
            task matches Some(t) ==> t.wf() && t.raw@.len() + 32 < usize::MAX,
        ensures
            final(self).wf(),
            forall|key: Key| action_of(key) == a ==> list_keyed(
                *old(self),
                *final(self),
                key,
                pane,
                match task {
                    Some(t) => Some(*t),
                    None => None,
                },
                crate::live::names_view(lists@),
                today,
                r,
            ),
    {
        match a {
            Action::Quit => Effect::Quit,
            Action::Move(k) => {
                self.notice = Notice::Hints;
                Effect::Move(k)
            },
            Action::Top => Effect::Top,
            Action::Bottom => Effect::Bottom,
            Action::Toggle => Effect::Restate(false),
            Action::Cancel => Effect::Restate(true),
            Action::Delete => Effect::Delete,
            Action::Undo => Effect::Undo,
            Action::Fold(w) => Effect::Fold(w),
            Action::Edit => Effect::Edit,
            Action::Reload => Effect::Reload,
            Action::Add => {
                let height: u16 = if pane.1 > 1 { pane.1 - 1 } else { 0 };
                if Form::fits(pane.0, height) {
                    self.open = Open::Form(Form::adding(today, lists));
                } else {
                    self.open = Open::Line(Input::adding(today));
                }
                self.helping = false;
                Effect::Nothing
            },
            Action::Quick => {
                self.open = Open::Line(Input::adding(today));
                self.helping = false;
                Effect::Nothing
            },
            Action::Change => {
                match task {
                    Some(t) => {
                        self.open = Open::Line(Input::editing(t));
                        self.helping = false;
                    },
                    None => {
                        self.notice = Notice::Said(string_from("nothing to edit here"));
                    },
                }
                Effect::Nothing
            },
            Action::Duplicate => {
                match task {
                    Some(t) => {
                        self.open = Open::Line(Input::duplicating(t, today));
                        self.helping = false;
                    },
                    None => {
                        self.notice = Notice::Said(string_from("nothing to copy here"));
                    },
                }
                Effect::Nothing
            },
            Action::Postpone => {
                match task {
                    Some(t) => {
                        self.open = Open::Line(Input::postponing(t));
                        self.helping = false;
                    },
                    None => {
                        self.notice = Notice::Said(string_from("nothing to put off here"));
                    },
                }
                Effect::Nothing
            },
            Action::Help => {
                self.helping = !self.helping;
                Effect::Nothing
            },
            Action::Close => {
                self.helping = false;
                Effect::Nothing
            },
            Action::Say(what) => {
                self.notice = Notice::Said(string_from(what));
                Effect::Nothing
            },
            _ => Effect::Nothing,
        }
    }
}

} // verus!
