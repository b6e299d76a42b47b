use ratodo::date::{Date, Time};
use ratodo::model::{Ending, Item, Priority, State, Task};
use ratodo::parse::parse;

fn only_task(s: &str) -> Task {
    let doc = parse(s);
    let tasks = doc.tasks();
    assert!(!tasks.is_empty(), "expected one task");
    tasks[0].clone()
}

fn date(y: i32, m: u32, d: u32) -> Date {
    Date::from_ymd(y, m, d).unwrap()
}

#[test]
fn plain_open_task() {
    let t = only_task("- [ ] pay the invoice");
    assert!(!t.done());
    assert_eq!(t.title, "pay the invoice");
    assert!(t.due.is_none());
    assert!(t.tags.is_empty());
    assert!(t.priority.is_none());
}

#[test]
fn all_metadata() {
    let t = only_task("- [ ] rotate the keys @2026-08-08 #ops #home !high");
    assert_eq!(t.title, "rotate the keys");
    assert_eq!(t.due.unwrap().date, date(2026, 8, 8));
    assert_eq!(t.tags, vec!["ops", "home"]);
    assert_eq!(t.priority, Some(Priority::High));
}

#[test]
fn due_with_time() {
    let t = only_task("- [ ] review the PR @2026-08-10 16:00 #work");
    let due = t.due.unwrap();
    assert_eq!(due.date, date(2026, 8, 10));
    assert_eq!(due.time, Some(Time::from_hm(16, 0).unwrap()));
    assert_eq!(t.title, "review the PR");
}

#[test]
fn permissive_bullets_and_capital_x() {
    for line in ["- [x] done", "* [x] done", "+ [x] done", "- [X] done"] {
        let t = only_task(line);
        assert!(t.done(), "{line} should parse as done");
        assert_eq!(t.title, "done");
    }
}

#[test]
fn cancelled_tasks_and_completion_stamps() {
    let t = only_task("- [-] decided against @2026-08-12 #ops");
    assert_eq!(t.state, State::Cancelled);
    assert!(!t.open(), "a cancelled task is not open");
    assert!(!t.done(), "and it is not finished either");
    assert_eq!(t.title, "decided against");
    assert_eq!(t.due.unwrap().date, date(2026, 8, 12));

    let t = only_task("- [x] shipped it @2026-08-08 ✓2026-08-10 #ops");
    assert_eq!(t.done_on, Some(date(2026, 8, 10)));
    assert_eq!(t.due.unwrap().date, date(2026, 8, 8));
    assert_eq!(t.title, "shipped it", "the stamp is not part of the title");
    assert_eq!(t.tags, vec!["ops"]);
}

#[test]
fn a_tick_that_is_not_a_stamp_stays_in_the_title() {
    for line in ["- [x] a ✓ tick", "- [x] a ✓maybe", "- [x] a ✓2026-13-45", "- [x] a ✓2026-08"] {
        let t = only_task(line);
        assert_eq!(t.done_on, None, "{line}");
        assert!(t.title.contains('✓'), "{line} lost the user's tick");
    }
}

#[test]
fn only_the_first_stamp_counts() {
    let t = only_task("- [x] a ✓2026-08-10 ✓2026-08-11");
    assert_eq!(t.done_on, Some(date(2026, 8, 10)));
    assert_eq!(t.title, "a ✓2026-08-11");
}

#[test]
fn indented_task_is_still_a_task() {
    let t = only_task("  - [ ] an indented subtask");
    assert_eq!(t.title, "an indented subtask");
    assert_eq!(t.raw, "  - [ ] an indented subtask");
}

#[test]
fn invalid_date_stays_in_the_title() {
    let t = only_task("- [ ] invalid date @2026-13-45");
    assert!(t.due.is_none());
    assert_eq!(t.title, "invalid date @2026-13-45");
}

#[test]
fn bare_at_and_hash_are_text() {
    let t = only_task("- [ ] junk @ and # on their own");
    assert!(t.due.is_none());
    assert!(t.tags.is_empty());
    assert_eq!(t.title, "junk @ and # on their own");
}

#[test]
fn empty_checkbox_line_is_a_task() {
    let t = only_task("- [ ]");
    assert_eq!(t.title, "");
    assert!(!t.done());
}

#[test]
fn non_tasks_are_never_tasks() {
    for line in [
        "# My list",
        "## Work",
        "> a quote",
        "| a | table |",
        "---",
        "",
        "just a paragraph",
        "-[ ] no space after the bullet",
        "- [] empty brackets",
        "- [?] not a checkbox",
        "-- [ ] two bullets",
        "- ax] rest",
        "- a ] rest",
        "- [x rest",
        "- x] rest",
    ] {
        assert_eq!(parse(line).task_count(), 0, "{line:?} must not be a task");
    }
}

#[test]
fn sections_are_attached() {
    let doc = parse("## Work\n- [ ] a\n\n## Home\n- [ ] b\n");
    let tasks = doc.tasks();
    assert_eq!(tasks[0].section.as_deref(), Some("Work"));
    assert_eq!(tasks[1].section.as_deref(), Some("Home"));
}

#[test]
fn a_tag_on_its_own_line_is_not_a_heading() {
    let doc = parse("#ops\n- [ ] a\n");
    assert_eq!(doc.tasks()[0].section, None);
}

#[test]
fn line_endings_and_final_newline_are_remembered() {
    assert_eq!(parse("a\nb\n").lines.last().unwrap().ending, Ending::Lf);
    assert_eq!(parse("a\nb").lines.last().unwrap().ending, Ending::Missing);
    assert_eq!(parse("a\r\nb\r\n").lines[0].ending, Ending::CrLf);
    assert_eq!(parse("").lines.len(), 0);
    assert_eq!(parse("\n").lines.len(), 1);
}

#[test]
fn blank_lines_are_kept_as_text() {
    let doc = parse("- [ ] a\n\n\n- [ ] b\n");
    assert_eq!(doc.lines.len(), 4);
    assert_eq!(doc.lines[1].item, Item::Text(String::new()));
    assert_eq!(doc.lines[2].item, Item::Text(String::new()));
}

#[test]
fn second_date_is_left_in_the_title() {
    let t = only_task("- [ ] a @2026-08-08 b @2026-09-09");
    assert_eq!(t.due.unwrap().date, date(2026, 8, 8));
    assert_eq!(t.title, "a b @2026-09-09");
}

#[test]
fn priority_is_case_insensitive_when_read() {
    assert_eq!(only_task("- [ ] a !HIGH").priority, Some(Priority::High));
    assert_eq!(only_task("- [ ] a !nope").priority, None);
    assert_eq!(only_task("- [ ] a !nope").title, "a !nope");
}

#[test]
fn non_ascii_survives() {
    let t = only_task("- [ ] fatura öde şğüöçİI 🚀 @2026-08-17 #ev");
    assert_eq!(t.title, "fatura öde şğüöçİI 🚀");
    assert_eq!(t.tags, vec!["ev"]);
    assert_eq!(t.due.unwrap().date, date(2026, 8, 17));
}
