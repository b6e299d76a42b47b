use ratodo::date::Date;
use ratodo::model::{Doc, Due, State, Task};
use ratodo::parse::parse;
use ratodo::write::{backup_name, render, Conflict};

fn a_day() -> Date {
    Date::from_ymd(2026, 8, 10).unwrap()
}

fn first_task(doc: &mut Doc) -> &mut Task {
    let line = doc.task_lines()[0];
    doc.task_at_mut(line).unwrap()
}

#[test]
fn render_is_the_inverse_of_parse() {
    for input in [
        "",
        "\n",
        "- [ ] a\n",
        "- [ ] a",
        "- [ ] a\r\n- [x] b\r\n",
        "## Work\n\n- [ ] a\n\n> quote\n---\n",
        "mixed\r\nendings\nin one file\n",
        "trailing spaces   \n\ttab indented\n",
    ] {
        assert_eq!(render(&parse(input)), input, "input: {input:?}");
    }
}

#[test]
fn ticking_changes_one_byte_and_appends_the_stamp() {
    let before = "- [ ]    spaced   out   title   @2026-08-10   #tag\n";
    let mut doc = parse(before);
    first_task(&mut doc).set_state(State::Done, a_day());

    assert_eq!(
        render(&doc),
        "- [x]    spaced   out   title   @2026-08-10   #tag ✓2026-08-10\n"
    );
}

#[test]
fn toggling_back_and_forth_returns_the_original() {
    for before in [
        "  * [ ] weirdly written but mine\n",
        "- [ ] with   odd   spacing   @2026-08-12 16:00 #a #b !low\n",
        "- [-] and one that was cancelled\n",
    ] {
        let mut doc = parse(before);
        let was = doc.tasks()[0].state;
        first_task(&mut doc).set_state(State::Done, a_day());
        first_task(&mut doc).set_state(was, a_day());
        assert_eq!(render(&doc), before);
    }
}

#[test]
fn re_ticking_an_unstamped_task_stamps_it() {
    let mut doc = parse("  * [X] finished before the stamp existed\n");
    first_task(&mut doc).set_state(State::Open, a_day());
    first_task(&mut doc).set_state(State::Done, a_day());
    assert_eq!(render(&doc), "  * [x] finished before the stamp existed ✓2026-08-10\n");
}

#[test]
fn postponing_moves_the_date_and_nothing_else() {
    let mut doc = parse("- [ ] a   task @2026-08-10 16:00 #tag !high\n");
    first_task(&mut doc).postpone(Date::from_ymd(2026, 8, 17).unwrap());
    assert_eq!(render(&doc), "- [ ] a   task @2026-08-17 16:00 #tag !high\n");
}

#[test]
fn postponing_an_undated_task_gives_it_a_date() {
    let mut doc = parse("- [ ] no date here #tag\n");
    first_task(&mut doc).postpone(Date::from_ymd(2026, 8, 17).unwrap());
    assert_eq!(render(&doc), "- [ ] no date here #tag @2026-08-17\n");
}

#[test]
fn appending_to_a_file_without_a_final_newline() {
    let mut doc = parse("- [ ] first");
    doc.push_task(Task::new(
        State::Open,
        "second".into(),
        Some(Due::new(Date::from_ymd(2026, 8, 11).unwrap())),
        vec!["home".into()],
        None,
    ));
    assert_eq!(render(&doc), "- [ ] first\n- [ ] second @2026-08-11 #home\n");
}

#[test]
fn appending_to_an_empty_document() {
    let mut doc = Doc::default();
    doc.push_task(Task::new(State::Open, "first".into(), None, vec![], None));
    assert_eq!(render(&doc), "- [ ] first\n");
}

#[test]
fn a_backup_name_holds_nothing_a_filesystem_refuses() {
    assert_eq!(
        backup_name(r"\\?\C:\Users\you\todo.md"),
        "C-Users-you-todo.md.bak",
        "still unwritable on Windows"
    );
    assert_eq!(
        backup_name("/home/you/todo.md"),
        "home-you-todo.md.bak",
        "the name every existing backup already has"
    );
}

#[test]
fn a_conflict_says_nothing_was_written() {
    let c = Conflict("/home/you/todo.md".to_string());
    assert_eq!(
        c.message(),
        "/home/you/todo.md changed on disk since it was read — nothing was written.\n\
         Re-run to pick up the new version."
    );
}
