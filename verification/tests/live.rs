use ratodo::date::Date;
use ratodo::live::{capture_target, Lists, Notice, Step, Write};
use ratodo::parse::parse;
use ratodo::ui::{Input, Purpose};
use ratodo::write::render;

fn today() -> Date {
    Date::from_ymd(2026, 8, 10).unwrap()
}

fn one(text: &str) -> Lists {
    Lists::new(vec![parse(text)], vec!["todo.md".to_string()])
}

fn written(step: Step) -> Write {
    match step {
        Step::Write(w) => w,
        Step::Say(n) => panic!("expected a write, got {n:?}"),
    }
}

fn said(step: Step) -> Notice {
    match step {
        Step::Say(n) => n,
        Step::Write(w) => panic!("expected nothing written, got {:?}", w.said),
    }
}

#[test]
fn ticking_and_cancelling_both_go_both_ways() {
    let text = "- [ ] water the plants\n";
    let mut lists = one(text);
    let task = lists.docs[0].tasks()[0].copied();

    let w = written(lists.restate(Some(&task), false, today()));
    assert_eq!(w.said, "done: water the plants    u undo");
    assert_eq!(render(&lists.docs[0]), "- [x] water the plants ✓2026-08-10\n");
    let ticked = w.row.as_ref().unwrap().copied();
    assert_eq!(lists.commit(w), Notice::Said("done: water the plants    u undo".to_string()));

    let w = written(lists.restate(Some(&ticked), false, today()));
    assert_eq!(w.said, "reopened: water the plants    u undo");
    lists.commit(w);
    assert_eq!(render(&lists.docs[0]), text);

    let open = lists.docs[0].tasks()[0].copied();
    let w = written(lists.restate(Some(&open), true, today()));
    assert_eq!(w.undo.as_deref(), Some("cancelling water the plants"));
    assert_eq!(render(&lists.docs[0]), "- [-] water the plants\n");
}

#[test]
fn there_is_nothing_to_delete_or_undo_in_an_empty_list() {
    let mut lists = one("");
    assert_eq!(said(lists.delete(None)), Notice::Said("nothing to delete here".to_string()));
    assert_eq!(said(lists.undo()), Notice::Said("nothing to undo".to_string()));
    assert_eq!(said(lists.restate(None, false, today())), Notice::Said("nothing to tick here".to_string()));
}

#[test]
fn undo_puts_a_deleted_task_back_where_it_was() {
    let text = "# list\n- [ ] one\n- [ ] two\n- [ ] three\n";
    let mut lists = one(text);
    let two = lists.docs[0].tasks()[1].copied();

    let w = written(lists.delete(Some(&two)));
    assert_eq!(w.said, "deleted \"two\"    u undo");
    assert_eq!(render(&lists.docs[0]), "# list\n- [ ] one\n- [ ] three\n");
    lists.commit(w);

    let w = written(lists.undo());
    assert_eq!(w.said, "undone: deleting \"two\"");
    assert_eq!(render(&lists.docs[0]), text);
    lists.commit(w);
    assert_eq!(said(lists.undo()), Notice::Said("nothing to undo".to_string()), "one level");
}

#[test]
fn a_refused_write_puts_the_document_back_and_keeps_the_undo() {
    let text = "- [ ] one\n- [ ] two\n";
    let mut lists = one(text);
    let one_task = lists.docs[0].tasks()[0].copied();
    let w = written(lists.delete(Some(&one_task)));
    lists.commit(w);

    let w = written(lists.undo());
    assert_eq!(render(&lists.docs[0]), text);
    assert_eq!(
        lists.revert(w),
        Notice::Warned("changed on disk - nothing was written.  r reload".to_string())
    );
    assert_eq!(render(&lists.docs[0]), "- [ ] two\n", "the refusal changed nothing");
    assert!(matches!(lists.undo(), Step::Write(_)), "a refused undo keeps the undo");
}

#[test]
fn the_input_adds_a_task_and_undo_takes_it_away_again() {
    let text = "- [ ] first\n\nsome prose\n";
    let mut lists = one(text);
    let input = Input::new("pay the invoice @tomorrow #home".to_string(), Purpose::Add);
    let w = written(lists.save_typed(&input, today()));
    assert_eq!(w.said, "added: pay the invoice    u undo");
    assert_eq!(
        render(&lists.docs[0]),
        "- [ ] first\n- [ ] pay the invoice @2026-08-11 #home\n\nsome prose\n"
    );
    lists.commit(w);
    let w = written(lists.undo());
    lists.commit(w);
    assert_eq!(render(&lists.docs[0]), text);
}

#[test]
fn the_input_edits_one_line_and_keeps_its_prefix() {
    let mut lists = one("  * [x] wash up @2026-08-12 #home\n- [ ] other\n");
    let raw = lists.docs[0].tasks()[0].raw.clone();
    let input = Input::new("wash up tonight !high".to_string(), Purpose::Edit(raw));
    let w = written(lists.save_typed(&input, today()));
    assert_eq!(w.said, "edited: wash up tonight    u undo");
    assert_eq!(render(&lists.docs[0]), "  * [x] wash up tonight !high\n- [ ] other\n");
}

#[test]
fn an_input_that_says_nothing_writes_nothing() {
    let mut lists = one("- [ ] a\n");
    for text in ["", "   ", "@tomorrow", "#home !high"] {
        let input = Input::new(text.to_string(), Purpose::Add);
        assert_eq!(said(lists.save_typed(&input, today())), Notice::Said("nothing typed".to_string()), "{text:?}");
    }
    let raw = lists.docs[0].tasks()[0].raw.clone();
    let same = Input::new("a".to_string(), Purpose::Edit(raw));
    assert_eq!(said(lists.save_typed(&same, today())), Notice::Said("unchanged".to_string()));
    assert_eq!(render(&lists.docs[0]), "- [ ] a\n");
}

#[test]
fn putting_a_date_off_moves_the_date_and_nothing_else() {
    let a_day = Date::from_ymd(2026, 8, 11).unwrap();
    let raw = "- [ ] first @2026-08-20 16:00 #ops !high";
    let mut lists = one(&format!("## Work\n{raw}\n> a note\n"));

    let input = Input::new("3d".to_string(), Purpose::Postpone(raw.to_string()));
    let w = written(lists.save_typed(&input, a_day));
    let notice = lists.commit(w);
    assert!(matches!(&notice, Notice::Said(s) if s.contains("put off: first")), "{notice:?}");
    assert_eq!(
        render(&lists.docs[0]),
        "## Work\n- [ ] first @2026-08-14 16:00 #ops !high\n> a note\n"
    );

    // A bare number is days, and it is the answer the box was asking for.
    let now = "- [ ] first @2026-08-14 16:00 #ops !high";
    let input = Input::new("1".to_string(), Purpose::Postpone(now.to_string()));
    let w = written(lists.save_typed(&input, a_day));
    lists.commit(w);
    assert_eq!(
        render(&lists.docs[0]),
        "## Work\n- [ ] first @2026-08-12 16:00 #ops !high\n> a note\n"
    );

    // What is not a length of time is refused, and so is one past the
    // horizon: nothing is written.
    let then = render(&lists.docs[0]);
    for typed in ["3x", "2222", "2222d", "222w"] {
        let bad = Input::new(
            typed.to_string(),
            Purpose::Postpone("- [ ] first @2026-08-12 16:00 #ops !high".to_string()),
        );
        let notice = said(lists.save_typed(&bad, a_day));
        assert!(
            matches!(&notice, Notice::Warned(text) if text.contains("a year at most")),
            "{typed}: {notice:?}"
        );
        assert_eq!(render(&lists.docs[0]), then, "{typed}: a refusal wrote something");
    }

    // The way past the horizon is to write the date.
    let far = Input::new(
        "2032-09-10".to_string(),
        Purpose::Postpone("- [ ] first @2026-08-12 16:00 #ops !high".to_string()),
    );
    let w = written(lists.save_typed(&far, a_day));
    lists.commit(w);
    assert_eq!(
        render(&lists.docs[0]),
        "## Work\n- [ ] first @2032-09-10 16:00 #ops !high\n> a note\n"
    );
}

#[test]
fn a_length_of_time_reaches_a_year_and_no_further() {
    let mut lists = one("- [ ] a @2026-08-10\n");
    let raw = lists.docs[0].tasks()[0].raw.clone();
    let input = Input::new("366".to_string(), Purpose::Postpone(raw.clone()));
    let w = written(lists.save_typed(&input, today()));
    lists.commit(w);
    assert_eq!(render(&lists.docs[0]), "- [ ] a @2027-08-11\n");
    let raw = lists.docs[0].tasks()[0].raw.clone();
    for typed in ["367", "367d", "53w"] {
        let input = Input::new(typed.to_string(), Purpose::Postpone(raw.clone()));
        assert!(matches!(said(lists.save_typed(&input, today())), Notice::Warned(_)), "{typed}");
    }
}

#[test]
fn editing_a_line_that_is_no_longer_there_writes_nothing() {
    let mut lists = one("- [ ] a\n");
    let input = Input::new("b".to_string(), Purpose::Edit("- [ ] gone".to_string()));
    assert_eq!(
        said(lists.save_typed(&input, today())),
        Notice::Warned("that task is not there any more.  esc, then look again".to_string())
    );
}

#[test]
fn several_lists_are_one_agenda_and_a_write_touches_one_file() {
    let mut lists = Lists::new(
        vec![parse("- [ ] at work\n"), parse("- [ ] at home\n")],
        vec!["work.md".to_string(), "todo.md".to_string()],
    );
    assert_eq!(lists.docs[0].tasks()[0].file.as_deref(), Some("work.md"));
    assert_eq!(lists.docs[1].tasks()[0].file.as_deref(), Some("todo.md"));
    assert_eq!(capture_target(&lists.names), 1);

    let home = lists.docs[1].tasks()[0].copied();
    let w = written(lists.restate(Some(&home), false, today()));
    assert_eq!(w.which, 1);
    assert_eq!(render(&lists.docs[0]), "- [ ] at work\n");

    let input = Input::new("new one".to_string(), Purpose::Add);
    let w = written(lists.save_typed(&input, today()));
    assert_eq!(w.which, 1);
    assert_eq!(lists.docs[1].tasks()[1].file.as_deref(), Some("todo.md"));
}

#[test]
fn one_list_is_stamped_with_nothing() {
    let lists = one("- [ ] a\n");
    assert_eq!(lists.docs[0].tasks()[0].file, None);
    assert_eq!(capture_target(&["a.md".to_string(), "b.md".to_string()]), 0);
}

fn two(todo: &str, work: &str) -> Lists {
    Lists::new(vec![parse(todo), parse(work)], vec!["todo.md".to_string(), "work.md".to_string()])
}

#[test]
fn a_dollar_sends_the_capture_to_the_list_it_names() {
    let mut lists = two("- [ ] mine\n", "- [ ] theirs\n");
    let input = Input::new("buy milk $work".to_string(), Purpose::Add);
    let w = written(lists.save_typed(&input, today()));
    assert_eq!(w.which, 1);
    lists.commit(w);
    assert_eq!(render(&lists.docs[1]), "- [ ] theirs\n- [ ] buy milk\n");
    assert_eq!(render(&lists.docs[0]), "- [ ] mine\n");
    let added = lists.docs[1].tasks()[1].copied();
    assert_eq!(added.title, "buy milk");
    assert_eq!(added.file.as_deref(), Some("work.md"));

    let input = Input::new("buy bread $work.md".to_string(), Purpose::Add);
    let w = written(lists.save_typed(&input, today()));
    lists.commit(w);
    assert_eq!(render(&lists.docs[1]), "- [ ] theirs\n- [ ] buy milk\n- [ ] buy bread\n");
}

#[test]
fn a_dollar_naming_no_list_writes_nothing() {
    let mut lists = two("- [ ] mine\n", "- [ ] theirs\n");
    let input = Input::new("buy milk $wrok".to_string(), Purpose::Add);
    let notice = said(lists.save_typed(&input, today()));
    assert!(matches!(&notice, Notice::Warned(text) if text.contains("wrok.md")), "{notice:?}");
    assert_eq!(render(&lists.docs[0]), "- [ ] mine\n");
    assert_eq!(render(&lists.docs[1]), "- [ ] theirs\n");
}

#[test]
fn a_dollar_in_an_edit_is_refused() {
    let mut lists = two("- [ ] mine\n", "- [ ] theirs\n");
    let input = Input::new("mine $work".to_string(), Purpose::Edit("- [ ] mine".to_string()));
    let notice = said(lists.save_typed(&input, today()));
    assert!(matches!(&notice, Notice::Warned(text) if text.contains("$work")), "{notice:?}");
    assert_eq!(render(&lists.docs[0]), "- [ ] mine\n");
    assert_eq!(render(&lists.docs[1]), "- [ ] theirs\n");
}

#[test]
fn without_a_dollar_a_capture_goes_to_todo_md() {
    let lists = Lists::new(
        vec![parse("- [ ] theirs\n"), parse("- [ ] mine\n")],
        vec!["work.md".to_string(), "todo.md".to_string()],
    );
    assert_eq!(ratodo::live::capture_into("buy milk", &lists.names, today()), Some(1));
    assert_eq!(ratodo::live::capture_into("buy milk $work", &lists.names, today()), Some(0));
    assert_eq!(ratodo::live::capture_into("buy milk $wrok", &lists.names, today()), None);
    assert_eq!(ratodo::live::list_of("buy milk $work @thu", today()), Some("work".to_string()));
    assert!(ratodo::live::names_list("work", "work.md"));
    assert!(ratodo::live::names_list("work.md", "work.md"));
    assert!(!ratodo::live::names_list("wor", "work.md"));
}
