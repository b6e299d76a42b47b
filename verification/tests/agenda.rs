use ratodo::agenda::{agenda, week, Counts, Filter, Kind};
use ratodo::capture::capture;
use ratodo::date::Date;
use ratodo::model::{Priority, State, Task};

fn today() -> Date {
    Date::from_ymd(2026, 8, 10).unwrap()
}

fn ymd(y: i32, m: u32, d: u32) -> Date {
    Date::from_ymd(y, m, d).unwrap()
}

fn task(text: &str) -> Task {
    capture(text, today())
}

fn in_section(text: &str, section: &str) -> Task {
    let mut t = task(text);
    t.section = Some(section.to_string());
    t
}

fn shape(tasks: &[Task], today: Date) -> Vec<(String, Vec<String>)> {
    agenda(tasks, today)
        .iter()
        .map(|g| {
            (
                g.kind.title().unwrap_or_default().to_string(),
                g.tasks.iter().map(|t| t.title.clone()).collect(),
            )
        })
        .collect()
}

#[test]
fn the_week_counts_completions_by_the_day_they_were_stamped() {
    let stamped = |title: &str, y, m, d| {
        let mut task = capture(title, today());
        task.set_state(State::Done, ymd(y, m, d));
        task
    };
    let tasks = [
        stamped("mon", 2026, 8, 10),
        stamped("wed", 2026, 8, 12),
        stamped("wed again", 2026, 8, 12),
        stamped("sun", 2026, 8, 16),
        stamped("last sunday", 2026, 8, 9),
        stamped("next monday", 2026, 8, 17),
        capture("still open", today()),
    ];

    assert_eq!(week(&tasks, today()), [1, 0, 2, 0, 0, 0, 1]);
    assert_eq!(week(&[], today()), [0; 7]);
}

#[test]
fn the_week_is_the_same_week_from_any_day_in_it() {
    let mut task = capture("done", today());
    task.set_state(State::Done, ymd(2026, 8, 12));

    for day in 10..=16 {
        let from = ymd(2026, 8, day);
        assert_eq!(week(std::slice::from_ref(&task), from), [0, 0, 1, 0, 0, 0, 0], "{from:?}");
    }
}

#[test]
fn a_completion_with_no_stamp_lands_in_no_day() {
    let mut task = capture("done long ago", today());
    task.set_state(State::Done, today());
    task.done_on = None;

    assert_eq!(week(std::slice::from_ref(&task), today()), [0; 7]);
}

#[test]
fn the_same_heading_in_two_files_stays_two_groups() {
    let mut tasks = [capture("review", today()), capture("deploy", today())];
    for (task, file) in tasks.iter_mut().zip(["work.md", "2026.md"]) {
        task.section = Some("Work".into());
        task.file = Some(file.to_string());
    }

    let groups = agenda(&tasks, today());
    assert_eq!(groups.len(), 2, "{groups:?}");
    assert_eq!(
        groups.iter().map(|g| g.kind).collect::<Vec<_>>(),
        [
            Kind::Section { file: Some("work.md"), name: Some("Work") },
            Kind::Section { file: Some("2026.md"), name: Some("Work") }
        ]
    );

    for task in &mut tasks {
        task.file = None;
    }
    assert_eq!(agenda(&tasks, today()).len(), 1);
}

#[test]
fn every_group_in_documented_order() {
    let tasks = [
        task("later @2026-09-01"),
        task("undated"),
        task("late @2026-08-01"),
        task("now @2026-08-10"),
        task("soon @2026-08-12"),
    ];
    assert_eq!(
        shape(&tasks, today()),
        [
            ("OVERDUE".into(), vec!["late".to_string()]),
            ("TODAY".into(), vec!["now".into()]),
            ("THIS WEEK".into(), vec!["soon".into()]),
            ("LATER".into(), vec!["later".into()]),
            ("".into(), vec!["undated".into()]),
        ]
    );
}

#[test]
fn an_empty_group_is_not_reported_at_all() {
    assert_eq!(shape(&[], today()), []);
    assert_eq!(
        shape(&[task("only one @2026-08-10")], today()),
        [("TODAY".to_string(), vec!["only one".to_string()])]
    );
}

#[test]
fn the_day_boundaries() {
    let cases = [
        ("@2026-08-09", "OVERDUE"),
        ("@2026-08-10", "TODAY"),
        ("@2026-08-11", "THIS WEEK"),
        ("@2026-08-17", "THIS WEEK"),
        ("@2026-08-18", "LATER"),
    ];
    for (date, group) in cases {
        let tasks = [task(&format!("a {date}"))];
        assert_eq!(shape(&tasks, today())[0].0, group, "{date}");
    }
}

#[test]
fn a_time_never_changes_which_day_a_task_belongs_to() {
    for time in ["00:00", "23:59"] {
        let tasks = [task(&format!("a @2026-08-10 {time}"))];
        assert_eq!(shape(&tasks, today())[0].0, "TODAY", "{time}");
    }
}

#[test]
fn a_date_years_back_is_still_just_overdue() {
    let tasks = [task("ancient @1999-01-01")];
    assert_eq!(shape(&tasks, today())[0].0, "OVERDUE");
}

#[test]
fn a_task_whose_date_does_not_exist_is_undated_not_missing() {
    let t = task("a @2026-02-30");
    assert_eq!(t.due, None);
    assert_eq!(shape(&[t], today()), [("".to_string(), vec!["a @2026-02-30".to_string()])]);
}

#[test]
fn the_last_week_of_the_calendar_does_not_panic() {
    let end = ymd(262142, 12, 31);
    let tasks = [task("a @2026-08-10")];
    assert_eq!(shape(&tasks, end)[0].0, "OVERDUE");
}

#[test]
fn within_a_dated_group_the_earliest_is_first_and_the_done_are_last() {
    let mut done = task("done @2026-08-01");
    done.set_state(State::Done, today());
    let tasks = [
        done,
        task("at nine @2026-08-08 09:00"),
        task("first @2026-08-01"),
        task("all day @2026-08-08"),
    ];
    assert_eq!(shape(&tasks, today())[0].1, ["first", "all day", "at nine", "done"]);
}

#[test]
fn tasks_on_the_same_day_keep_the_order_the_file_had() {
    let tasks = [task("b @2026-08-12"), task("a @2026-08-12"), task("c @2026-08-12")];
    assert_eq!(shape(&tasks, today())[0].1, ["b", "a", "c"]);
}

#[test]
fn undated_tasks_are_grouped_by_their_heading() {
    let tasks = [
        in_section("deploy", "Work"),
        in_section("invoice", "Work"),
        in_section("plumber", "Home"),
    ];
    assert_eq!(
        shape(&tasks, today()),
        [
            ("Work".to_string(), vec!["deploy".into(), "invoice".into()]),
            ("Home".to_string(), vec!["plumber".into()]),
        ]
    );
}

#[test]
fn an_undated_group_is_never_reordered() {
    let mut done = in_section("finished", "Work");
    done.set_state(State::Done, today());
    let tasks = [done, in_section("open", "Work")];
    assert_eq!(shape(&tasks, today())[0].1, ["finished", "open"]);
}

#[test]
fn a_heading_used_twice_stays_two_groups() {
    let tasks = [in_section("a", "Work"), in_section("b", "Home"), in_section("c", "Work")];
    let titles: Vec<&str> = agenda(&tasks, today()).iter().filter_map(|g| g.kind.title()).collect();
    assert_eq!(titles, ["Work", "Home", "Work"]);
}

#[test]
fn the_counts_a_bar_asks_for() {
    let mut done = task("finished @2026-08-01");
    done.set_state(State::Done, today());
    let tasks = [
        task("late @2026-08-01"),
        task("now @2026-08-10"),
        task("soon @2026-08-12"),
        task("undated"),
        done,
    ];
    assert_eq!(
        Counts::of(&tasks, today()),
        Counts { open: 4, today: 1, overdue: 1, done: 1 }
    );
}

#[test]
fn completing_something_late_empties_the_counts() {
    let mut t = task("late @2026-08-01");
    t.set_state(State::Done, today());
    assert_eq!(Counts::of(&[t], today()), Counts { done: 1, ..Counts::default() });
}

#[test]
fn the_class_is_the_worst_thing_the_list_contains() {
    let quiet = task("soon @2026-08-12");
    let due = task("now @2026-08-10");
    let late = task("late @2026-08-01");

    assert_eq!(Counts::of(&[], today()).class(), "ok");
    assert_eq!(Counts::of(std::slice::from_ref(&quiet), today()).class(), "ok");
    assert_eq!(Counts::of(std::slice::from_ref(&due), today()).class(), "due");
    assert_eq!(Counts::of(std::slice::from_ref(&late), today()).class(), "overdue");
    assert_eq!(Counts::of(&[quiet, due, late], today()).class(), "overdue");
}

fn matching<'a>(tasks: &'a [Task], filter: Filter<'_>) -> Vec<&'a str> {
    tasks.iter().filter(|t| filter.matches(t)).map(|t| t.title.as_str()).collect()
}

#[test]
fn the_empty_filter_is_not_a_filter() {
    let tasks = [task("a #ops !high"), task("b")];
    assert_eq!(matching(&tasks, Filter::default()), ["a", "b"]);
}

#[test]
fn a_tag_filter_keeps_only_what_carries_it() {
    let tasks = [task("a #ops"), task("b #home"), task("c")];
    let ops = [String::from("ops")];
    assert_eq!(matching(&tasks, Filter { tags: &ops, ..Filter::default() }), ["a"]);
}

#[test]
fn several_tags_widen_the_result() {
    let tasks = [task("a #ops"), task("b #home"), task("c #other")];
    let two = [String::from("ops"), String::from("home")];
    assert_eq!(matching(&tasks, Filter { tags: &two, ..Filter::default() }), ["a", "b"]);
}

#[test]
fn a_tag_matches_whatever_case_the_file_wrote_it_in() {
    let tasks = [task("a #Ops"), task("b #OPS")];
    let ops = [String::from("oPs")];
    assert_eq!(matching(&tasks, Filter { tags: &ops, ..Filter::default() }), ["a", "b"]);
}

#[test]
fn a_priority_filter_is_an_exact_level() {
    let tasks = [task("a !high"), task("b !med"), task("c")];
    let high = Filter { prio: Some(Priority::High), ..Filter::default() };
    assert_eq!(matching(&tasks, high), ["a"]);
}

#[test]
fn a_tag_and_a_priority_together_narrow_rather_than_widen() {
    let tasks = [task("both #ops !high"), task("tag only #ops"), task("prio only !high")];
    let ops = [String::from("ops")];
    let filter = Filter { tags: &ops, prio: Some(Priority::High) };
    assert_eq!(matching(&tasks, filter), ["both"]);
}

#[test]
fn a_dated_task_in_between_does_not_split_a_section() {
    let mut dated = in_section("dated", "Work");
    dated.due = task("x @2026-08-12").due;
    let tasks = [in_section("a", "Work"), dated, in_section("b", "Work")];
    assert_eq!(
        shape(&tasks, today()),
        [
            ("THIS WEEK".to_string(), vec!["dated".to_string()]),
            ("Work".to_string(), vec!["a".into(), "b".into()]),
        ]
    );
}
