use ratodo::agenda::agenda;
use ratodo::capture::capture;
use ratodo::date::Date;
use ratodo::model::{State, Task};
use ratodo::ui::{rows, Fold, Row, Screen, Size};

fn today() -> Date {
    Date::from_ymd(2026, 8, 10).unwrap()
}

fn tasks(specs: &[&str]) -> Vec<Task> {
    specs.iter().map(|s| capture(s, today())).collect()
}

fn in_section(specs: &[(&str, &str)]) -> Vec<Task> {
    specs
        .iter()
        .map(|(text, section)| {
            let mut t = capture(text, today());
            t.section = Some(section.to_string());
            t
        })
        .collect()
}

fn titles(rows: &[Row]) -> Vec<String> {
    rows.iter()
        .map(|r| match r {
            Row::Header { title, .. } => format!("# {title}"),
            Row::Task(t) => t.title.clone(),
            Row::GroupEnd => String::new(),
        })
        .collect()
}

fn title_under_cursor(screen: &Screen) -> Option<&str> {
    screen.task().map(|t| t.title.as_str())
}

#[test]
fn the_users_own_headings_keep_the_markdown_marker_and_ours_do_not() {
    let mut mixed = in_section(&[("write the plan", "Work")]);
    mixed.extend(tasks(&["late @2026-08-08"]));

    let groups = agenda(&mixed, today());
    assert_eq!(
        titles(&rows(&groups)),
        ["# OVERDUE", "late", "", "# ## Work", "write the plan", ""]
    );
}

#[test]
fn a_group_is_a_heading_its_tasks_and_a_closing_row() {
    let tasks = tasks(&["late @2026-08-01", "now @2026-08-10", "also @2026-08-10"]);
    let groups = agenda(&tasks, today());
    assert_eq!(titles(&rows(&groups)), ["# OVERDUE", "late", "", "# TODAY", "now", "also", ""]);
}

#[test]
fn the_first_group_gets_no_spacer_above_it() {
    let tasks = tasks(&["a @2026-08-10"]);
    assert_eq!(
        rows(&agenda(&tasks, today()))[0],
        Row::Header { title: "TODAY".to_string(), count: 1, folded: false }
    );
}

#[test]
fn an_untitled_group_gets_a_box_with_no_name_on_it() {
    let tasks = tasks(&["a", "b"]);
    assert_eq!(titles(&rows(&agenda(&tasks, today()))), ["# ", "a", "b", ""]);
}

#[test]
fn the_selection_starts_on_the_first_task_not_the_header() {
    let tasks = tasks(&["a @2026-08-10"]);
    let groups = agenda(&tasks, today());
    let screen = Screen::new(rows(&groups));
    assert_eq!(screen.selected(), Some(1));
    assert_eq!(title_under_cursor(&screen), Some("a"));
}

#[test]
fn a_list_with_nothing_in_it_has_no_selection() {
    let screen = Screen::new(rows(&[]));
    assert_eq!(screen.selected(), None);
    assert!(screen.task().is_none());
}

#[test]
fn moving_steps_over_the_headers_and_the_blanks() {
    let tasks = tasks(&["late @2026-08-01", "now @2026-08-10"]);
    let groups = agenda(&tasks, today());
    let mut screen = Screen::new(rows(&groups));

    assert_eq!(title_under_cursor(&screen), Some("late"));
    screen.move_by(1);
    assert_eq!(title_under_cursor(&screen), Some("now"), "one press crossed a blank and a header");
}

#[test]
fn moving_stops_at_the_ends_instead_of_wrapping() {
    let tasks = tasks(&["a @2026-08-10", "b @2026-08-10"]);
    let groups = agenda(&tasks, today());
    let mut screen = Screen::new(rows(&groups));

    screen.move_by(-1);
    assert_eq!(title_under_cursor(&screen), Some("a"));
    screen.move_by(99);
    assert_eq!(title_under_cursor(&screen), Some("b"));
    screen.move_by(1);
    assert_eq!(title_under_cursor(&screen), Some("b"));
    screen.move_by(isize::MIN);
    assert_eq!(title_under_cursor(&screen), Some("a"));
}

#[test]
fn a_half_page_lands_where_that_many_single_steps_would() {
    let tasks = in_section(&[("a", "S"), ("b", "S"), ("c", "S"), ("d", "S")]);
    let groups = agenda(&tasks, today());

    let mut jumped = Screen::new(rows(&groups));
    jumped.move_by(3);
    let mut stepped = Screen::new(rows(&groups));
    for _ in 0..3 {
        stepped.move_by(1);
    }
    assert_eq!(jumped.selected(), stepped.selected());
    assert_eq!(title_under_cursor(&jumped), Some("d"));
}

#[test]
fn a_reload_leaves_the_cursor_on_the_task_it_was_on() {
    let before = in_section(&[("one", "S"), ("two", "S"), ("three", "S")]);
    let groups = agenda(&before, today());
    let mut screen = Screen::new(rows(&groups));
    screen.move_by(2);
    assert_eq!(title_under_cursor(&screen), Some("three"));

    let after = in_section(&[("inserted at the top", "S"), ("one", "S"), ("two", "S"), ("three", "S")]);
    let groups = agenda(&after, today());
    screen.replace(rows(&groups));

    assert_eq!(title_under_cursor(&screen), Some("three"));
}

#[test]
fn a_reload_holds_on_to_a_task_whose_line_changed() {
    let before = in_section(&[("one", "S"), ("two", "S"), ("three", "S")]);
    let groups = agenda(&before, today());
    let mut screen = Screen::new(rows(&groups));
    screen.move_by(1);
    assert_eq!(title_under_cursor(&screen), Some("two"));

    let mut ticked = capture("two #ops", today());
    ticked.section = Some("S".into());
    ticked.set_state(State::Done, today());
    let mut after = in_section(&[("inserted", "S"), ("one", "S")]);
    after.push(ticked);
    after.extend(in_section(&[("three", "S")]));

    screen.replace(rows(&agenda(&after, today())));
    assert_eq!(title_under_cursor(&screen), Some("two"));
    assert!(screen.task().unwrap().done());
}

#[test]
fn a_duplicated_title_keeps_the_cursor_on_the_nearer_one() {
    let tasks = in_section(&[("call the bank", "S"), ("filler", "S"), ("call the bank", "S")]);
    let groups = agenda(&tasks, today());
    let mut screen = Screen::new(rows(&groups));
    screen.bottom();
    let was = screen.selected();

    screen.replace(rows(&agenda(&tasks, today())));
    assert_eq!(screen.selected(), was, "the cursor jumped to the other one of the pair");
}

#[test]
fn a_reload_that_takes_the_selected_task_away_falls_back_to_the_top() {
    let before = in_section(&[("one", "S"), ("doomed", "S")]);
    let groups = agenda(&before, today());
    let mut screen = Screen::new(rows(&groups));
    screen.bottom();

    let after = in_section(&[("one", "S")]);
    let groups = agenda(&after, today());
    screen.replace(rows(&groups));
    assert_eq!(title_under_cursor(&screen), Some("one"));

    screen.replace(rows(&[]));
    assert_eq!(screen.selected(), None, "an emptied list selects nothing");
}

#[test]
fn top_and_bottom_reach_the_first_and_last_task() {
    let tasks = tasks(&["late @2026-08-01", "now @2026-08-10", "soon @2026-08-12"]);
    let groups = agenda(&tasks, today());
    let mut screen = Screen::new(rows(&groups));

    screen.bottom();
    assert_eq!(title_under_cursor(&screen), Some("soon"));
    screen.top();
    assert_eq!(title_under_cursor(&screen), Some("late"));
}

#[test]
fn a_toggled_task_marks_in_place_and_moves_nothing() {
    let tasks = tasks(&["first @2026-08-01", "second @2026-08-01"]);
    let groups = agenda(&tasks, today());
    let mut screen = Screen::new(rows(&groups));
    let before = screen.selected();

    let mut done = screen.task().unwrap().copied();
    done.set_state(State::Done, today());
    screen.update_selected(done);

    assert_eq!(screen.selected(), before, "the cursor moved");
    assert!(screen.task().unwrap().done());
    assert_eq!(screen.task().unwrap().title, "first", "a different row was rewritten");
    assert_eq!(titles(screen.lines()), ["# OVERDUE", "first", "second", ""]);
}

fn two_groups() -> Vec<Task> {
    in_section(&[("deploy", "Work"), ("invoice", "Work"), ("plumber", "Home")])
}

#[test]
fn folding_hides_a_group_and_says_how_much_it_is_hiding() {
    let tasks = two_groups();
    let groups = agenda(&tasks, today());
    let mut screen = Screen::new(rows(&groups));

    assert_eq!(screen.fold(Fold::Close), None, "nothing was folded");
    assert_eq!(titles(screen.lines()), ["# ## Work", "# ## Home", "plumber", ""]);
    assert!(matches!(&screen.lines()[0], Row::Header { count: 2, folded: true, .. }));

    assert_eq!(screen.fold(Fold::Open), None);
    assert_eq!(
        titles(screen.lines()),
        ["# ## Work", "deploy", "invoice", "", "# ## Home", "plumber", ""]
    );
}

#[test]
fn z_is_whichever_of_the_two_is_the_opposite_of_now() {
    let tasks = two_groups();
    let groups = agenda(&tasks, today());
    let mut screen = Screen::new(rows(&groups));

    screen.fold(Fold::Toggle);
    assert_eq!(titles(screen.lines()).len(), 4);
    screen.fold(Fold::Toggle);
    assert_eq!(titles(screen.lines()).len(), 7);
}

#[test]
fn folding_what_is_already_folded_reports_that_nothing_happened() {
    let tasks = two_groups();
    let groups = agenda(&tasks, today());
    let mut screen = Screen::new(rows(&groups));

    assert_eq!(screen.fold(Fold::Close), None);
    assert_eq!(screen.fold(Fold::Close), Some("already folded"));
    assert_eq!(screen.fold(Fold::Open), None);
    assert_eq!(screen.fold(Fold::Open), Some("nothing folded here"));
}

#[test]
fn folding_under_the_cursor_leaves_it_nearby_not_at_the_top() {
    let tasks = two_groups();
    let groups = agenda(&tasks, today());
    let mut screen = Screen::new(rows(&groups));

    screen.move_by(1);
    assert_eq!(title_under_cursor(&screen), Some("invoice"));

    screen.fold(Fold::Close);
    assert!(screen.task().is_none(), "the cursor should be on the collapsed group itself");
    assert_eq!(screen.selected(), Some(0), "and not at the top by accident");
    assert!(matches!(
        screen.lines()[screen.selected().unwrap()],
        Row::Header { count: 2, folded: true, .. }
    ));

    assert_eq!(screen.fold(Fold::Open), None);
    assert_eq!(title_under_cursor(&screen), Some("deploy"));
}

#[test]
fn a_group_with_no_heading_cannot_be_folded() {
    let tasks = tasks(&["a", "b"]);
    let groups = agenda(&tasks, today());
    let mut screen = Screen::new(rows(&groups));

    assert_eq!(screen.fold(Fold::Close), Some("no group to fold here"));
    assert_eq!(titles(screen.lines()), ["# ", "a", "b", ""]);
}

#[test]
fn a_fold_survives_a_reload() {
    let before = two_groups();
    let groups = agenda(&before, today());
    let mut screen = Screen::new(rows(&groups));
    screen.fold(Fold::Close);

    let after = in_section(&[
        ("deploy", "Work"),
        ("invoice", "Work"),
        ("arrived from outside", "Work"),
        ("plumber", "Home"),
    ]);
    let groups = agenda(&after, today());
    screen.replace(rows(&groups));

    assert!(
        matches!(&screen.lines()[0], Row::Header { count: 3, folded: true, .. }),
        "{:?}",
        titles(screen.lines())
    );
}

#[test]
fn the_date_column_shortens_before_the_title_does() {
    let task = capture("a @2026-08-12 09:30", today());
    assert_eq!(ratodo::ui::when(&task, today(), Size::Wide), "Wed 09:30");
    assert_eq!(ratodo::ui::when(&task, today(), Size::Narrow), "Wed");

    let late = capture("a @2026-08-08", today());
    assert_eq!(ratodo::ui::when(&late, today(), Size::Wide), "2d ago");

    let far = capture("a @2026-09-20", today());
    assert_eq!(ratodo::ui::when(&far, today(), Size::Wide), "Sep 20");

    let undated = capture("a", today());
    assert_eq!(ratodo::ui::when(&undated, today(), Size::Wide), "");

    let now = capture("a @2026-08-10 16:00", today());
    assert_eq!(ratodo::ui::when(&now, today(), Size::Wide), "16:00", "the heading already says today");
}

#[test]
fn a_finished_task_shows_when_it_was_done_not_how_late_it_was() {
    let mut done = capture("a @2026-08-08", today());
    done.set_state(State::Done, today());
    assert_eq!(ratodo::ui::when(&done, today(), Size::Wide), "today");
    assert_eq!(ratodo::ui::when(&done, today(), Size::Narrow), "today");

    let older = ratodo::parse::parse("- [x] a @2026-08-08 ✓2026-07-30\n");
    let older = older.tasks()[0];
    assert_eq!(ratodo::ui::when(older, today(), Size::Wide), "Jul 30");

    let unstamped = ratodo::parse::parse("- [x] a @2026-08-08\n");
    let unstamped = unstamped.tasks()[0];
    assert_eq!(ratodo::ui::when(unstamped, today(), Size::Wide), "Aug 8");

    let cancelled = ratodo::parse::parse("- [-] a @2026-08-08\n");
    let cancelled = cancelled.tasks()[0];
    assert_eq!(ratodo::ui::when(cancelled, today(), Size::Wide), "Aug 8");

    let this_week = ratodo::parse::parse("- [x] a ✓2026-08-07\n");
    assert_eq!(ratodo::ui::when(this_week.tasks()[0], today(), Size::Wide), "Fri");
}
