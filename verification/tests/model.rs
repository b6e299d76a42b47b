use ratodo::capture::capture;
use ratodo::date::Date;
use ratodo::model::{Doc, Due, Ending, Item, Line, Lookup, Priority, State, Task};
use ratodo::parse::parse;

fn ymd(y: i32, m: u32, d: u32) -> Date {
    Date::from_ymd(y, m, d).unwrap()
}

fn due_on(y: i32, m: u32, d: u32) -> Option<Due> {
    Some(Due::new(ymd(y, m, d)))
}

fn state(done: bool) -> State {
    if done {
        State::Done
    } else {
        State::Open
    }
}

#[test]
fn due_today_is_not_overdue() {
    let today = ymd(2026, 8, 10);
    let mut task = Task::new(State::Open, "a".into(), due_on(2026, 8, 10), vec![], None);
    assert!(!task.is_overdue(today), "a task due today is not late yet");

    task.due = due_on(2026, 8, 9);
    assert!(task.is_overdue(today), "yesterday is late");

    task.due = due_on(2026, 8, 11);
    assert!(!task.is_overdue(today));
}

#[test]
fn a_completed_task_is_never_overdue() {
    let today = ymd(2026, 8, 10);
    let mut task = Task::new(State::Open, "a".into(), due_on(2020, 1, 1), vec![], None);
    assert!(task.is_overdue(today));
    task.set_state(State::Done, today);
    assert!(!task.is_overdue(today));
}

#[test]
fn an_undated_task_is_never_overdue() {
    let task = Task::new(State::Open, "a".into(), None, vec![], None);
    assert!(!task.is_overdue(ymd(2026, 8, 10)));
}

#[test]
fn the_body_is_whatever_follows_the_checkbox() {
    let doc = parse("  * [x]   wash up @2026-08-12\n- [ ] plain\n- [ ]\n");
    let bodies: Vec<&str> = doc.tasks().into_iter().map(|t| t.body()).collect();
    assert_eq!(bodies, ["wash up @2026-08-12", "plain", ""]);
}

#[test]
fn retyping_keeps_the_indent_the_bullet_and_the_tick() {
    let doc = parse("  * [x] wash up @2026-08-12 #home\n");
    let mut task = doc.tasks()[0].clone();

    task.retype(capture("wash up tonight #home !high", ymd(2026, 8, 11)));

    assert_eq!(task.line(), "  * [x] wash up tonight #home !high");
    assert_eq!(task.state, State::Done, "the tick was not the user's to retype");
    assert_eq!(task.title, "wash up tonight");
    assert_eq!(task.due, None, "the date was dropped, so it goes");
    assert_eq!(task.priority, Some(Priority::High));
}

fn doc(titles: &[(&str, bool)]) -> Doc {
    Doc {
        lines: titles
            .iter()
            .map(|&(title, done)| Line {
                item: Item::Task(Task::new(state(done), title.into(), None, vec![], None)),
                ending: Ending::Lf,
            })
            .collect(),
    }
}

#[test]
fn one_open_match_reports_the_line_it_is_on() {
    let d = doc(&[("pay the invoice", false), ("call the bank", false)]);
    assert_eq!(d.find_open("bank"), Lookup::One(1));
    assert_eq!(d.find_open("INVOICE"), Lookup::One(0), "case does not matter");
    assert_eq!(
        d.find_open("the"),
        Lookup::Several(vec!["pay the invoice".into(), "call the bank".into()])
    );
}

#[test]
fn the_index_counts_every_line_not_every_task() {
    let mut d = doc(&[("first", false), ("target", false)]);
    d.lines.insert(1, Line { item: Item::Text("> a note".into()), ending: Ending::Lf });
    let Lookup::One(at) = d.find_open("target") else {
        panic!("expected exactly one match");
    };
    assert_eq!(at, 2);
    assert_eq!(d.lines[at].text(), "- [ ] target");
}

#[test]
fn nothing_at_all_is_not_the_same_as_already_finished() {
    let d = doc(&[("close the old PRs", true)]);
    assert_eq!(d.find_open("old PRs"), Lookup::AlreadyDone("close the old PRs".into()));
    assert_eq!(d.find_open("something else"), Lookup::NoMatch);
}

#[test]
fn a_finished_task_is_not_a_candidate() {
    let d = doc(&[("write the report", true), ("send the report", false)]);
    assert_eq!(d.find_open("report"), Lookup::One(1));
}

#[test]
fn an_empty_search_matches_nothing_rather_than_everything() {
    let d = doc(&[("the only task", false)]);
    assert_eq!(d.find_open(""), Lookup::NoMatch);
    assert_eq!(d.find_open("   "), Lookup::NoMatch);
}

#[test]
fn surrounding_space_is_not_part_of_the_search() {
    let d = doc(&[("pay the invoice", false)]);
    assert_eq!(d.find_open("  invoice  "), Lookup::One(0));
}

#[test]
fn a_search_never_changes_anything() {
    let before = doc(&[("a", false), ("b", true)]);
    let after = before.clone();
    let _ = after.find_open("a");
    assert_eq!(before, after);
}

fn task(title: &str) -> Task {
    Task::new(State::Open, title.into(), None, vec![], None)
}

fn text(s: &str) -> Line {
    Line { item: Item::Text(s.to_string()), ending: Ending::Lf }
}

fn rendered(doc: &Doc) -> Vec<String> {
    doc.lines.iter().map(|l| l.text()).collect()
}

#[test]
fn a_task_lands_above_the_trailing_prose() {
    let mut doc = Doc {
        lines: vec![
            text("## Work"),
            Line { item: Item::Task(task("first")), ending: Ending::Lf },
            text(""),
            text("---"),
            text("a closing note"),
        ],
    };
    doc.push_task(task("second"));

    assert_eq!(
        rendered(&doc),
        ["## Work", "- [ ] first", "- [ ] second", "", "---", "a closing note"]
    );
}

#[test]
fn a_file_with_no_tasks_at_all_appends_at_the_end() {
    let mut doc = Doc { lines: vec![text("# My list"), text("just a paragraph")] };
    doc.push_task(task("first"));
    assert_eq!(rendered(&doc), ["# My list", "just a paragraph", "- [ ] first"]);
}

#[test]
fn the_missing_final_newline_is_supplied_only_when_appending_past_the_end() {
    let mut doc = Doc {
        lines: vec![Line { item: Item::Text("no trailing newline".into()), ending: Ending::Missing }],
    };
    doc.push_task(task("first"));
    assert_eq!(doc.lines[0].ending, Ending::Lf);
    assert_eq!(doc.lines[1].ending, Ending::Lf);
}

#[test]
fn a_file_without_a_final_newline_keeps_not_having_one() {
    let mut doc = Doc {
        lines: vec![
            Line { item: Item::Task(task("first")), ending: Ending::Lf },
            Line { item: Item::Text("closing note".into()), ending: Ending::Missing },
        ],
    };
    doc.push_task(task("second"));
    assert_eq!(doc.lines.last().unwrap().ending, Ending::Missing);
}

#[test]
fn removing_a_task_takes_one_line_and_leaves_the_rest_alone() {
    let mut doc = Doc {
        lines: vec![
            text("## Work"),
            Line { item: Item::Task(task("first")), ending: Ending::Lf },
            Line { item: Item::Task(task("second")), ending: Ending::Lf },
            text("> a note"),
        ],
    };

    let gone = doc.remove_task(1).expect("a task was there");
    assert_eq!(gone.title, "first");
    assert_eq!(rendered(&doc), ["## Work", "- [ ] second", "> a note"]);
}

#[test]
fn removing_something_that_is_not_a_task_removes_nothing() {
    let mut doc = Doc { lines: vec![text("> a note")] };
    assert!(doc.remove_task(0).is_none());
    assert!(doc.remove_task(9).is_none());
    assert_eq!(rendered(&doc), ["> a note"]);
}

#[test]
fn removing_the_last_line_does_not_add_a_trailing_newline() {
    let mut doc = Doc {
        lines: vec![
            Line { item: Item::Task(task("keep")), ending: Ending::Lf },
            Line { item: Item::Task(task("drop")), ending: Ending::Missing },
        ],
    };

    doc.remove_task(1);
    assert_eq!(doc.lines.last().unwrap().ending, Ending::Missing);
}

#[test]
fn removing_from_the_middle_leaves_the_final_ending_where_it_was() {
    let mut doc = Doc {
        lines: vec![
            Line { item: Item::Task(task("drop")), ending: Ending::Lf },
            Line { item: Item::Text("last".into()), ending: Ending::Missing },
        ],
    };

    doc.remove_task(0);
    assert_eq!(doc.lines.last().unwrap().ending, Ending::Missing);
    assert_eq!(rendered(&doc), ["last"]);
}

#[test]
fn nothing_that_was_already_there_moves_relative_to_anything_else() {
    let before = vec![text("## A"), text("> quote"), text("| table |")];
    let mut doc = Doc { lines: before.clone() };
    doc.push_task(task("new"));

    let after: Vec<String> = rendered(&doc).into_iter().filter(|l| l != "- [ ] new").collect();
    assert_eq!(after, rendered(&Doc { lines: before }));
}

#[test]
fn a_task_reached_by_its_line_can_be_changed_in_place() {
    let mut d = parse("# list\n- [ ] a @2026-08-12\n");
    let lines = d.task_lines();
    assert_eq!(lines, vec![1]);
    let t = d.task_at_mut(1).expect("line one is a task");
    t.postpone(ymd(2026, 8, 20));
    assert_eq!(d.lines[1].text(), "- [ ] a @2026-08-20");
    assert!(d.task_at_mut(0).is_none());
}
