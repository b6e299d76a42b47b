use ratodo::agenda::Counts;
use ratodo::capture::capture;
use ratodo::date::{Date, Time};
use ratodo::model::{Due, Priority, State};
use ratodo::text::{added, list_line, plain, porcelain_line, relative, status_json, status_line};

fn today() -> Date {
    Date::from_ymd(2026, 8, 10).unwrap()
}

fn due(y: i32, m: u32, d: u32) -> Due {
    Due::new(Date::from_ymd(y, m, d).unwrap())
}

#[test]
fn control_characters_never_reach_the_terminal() {
    assert_eq!(plain("clean"), "clean");
    assert_eq!(plain("\x1b[2Jwipe"), "\u{fffd}[2Jwipe");
    assert_eq!(plain("bell\x07"), "bell\u{fffd}");
    assert_eq!(plain("şğüöç 🚀"), "şğüöç 🚀");
}

#[test]
fn relative_dates_read_as_words_when_they_are_near() {
    assert_eq!(relative(due(2026, 8, 10), today()), "today (2026-08-10)");
    assert_eq!(relative(due(2026, 8, 11), today()), "tomorrow (2026-08-11)");
    assert_eq!(relative(due(2026, 8, 12), today()), "Wednesday (2026-08-12)");
    assert_eq!(relative(due(2026, 8, 16), today()), "Sunday (2026-08-16)");
}

#[test]
fn distant_and_past_dates_read_as_numbers() {
    assert_eq!(relative(due(2026, 8, 17), today()), "2026-08-17");
    assert_eq!(relative(due(2026, 8, 9), today()), "2026-08-09");
    assert_eq!(relative(due(2020, 1, 1), today()), "2020-01-01");
}

#[test]
fn a_time_is_carried_through() {
    let d = Due {
        date: Date::from_ymd(2026, 8, 11).unwrap(),
        time: Time::from_hm(16, 0),
    };
    assert_eq!(relative(d, today()), "tomorrow (2026-08-11 16:00)");
}

#[test]
fn the_added_line() {
    let t = capture("pay the invoice @tomorrow #home !high", today());
    assert_eq!(
        added(&t, today()),
        "added: pay the invoice  ·  due tomorrow (2026-08-11)  ·  #home  ·  !high"
    );

    let bare = capture("something", today());
    assert_eq!(added(&bare, today()), "added: something");
}

#[test]
fn list_lines_mark_state() {
    let open = capture("a @2026-08-12", today());
    assert_eq!(list_line(&open, today()), "  [ ] a  2026-08-12");

    let late = capture("a @2026-08-08", today());
    assert_eq!(list_line(&late, today()), "  [!] a  2026-08-08");

    let mut done = capture("a @2026-08-08", today());
    done.set_state(State::Done, today());
    assert_eq!(
        list_line(&done, today()),
        "  [x] a  2026-08-08",
        "a completed task is never overdue"
    );

    let undated = capture("a", today());
    assert_eq!(list_line(&undated, today()), "  [ ] a");
}

#[test]
fn the_status_line_is_the_same_string_list_ends_with() {
    let counts = Counts {
        open: 3,
        today: 0,
        overdue: 1,
        ..Counts::default()
    };
    assert_eq!(status_line(counts), "3 open · 1 overdue");
    assert_eq!(status_line(Counts::default()), "0 open · 0 overdue");
}

#[test]
fn the_status_json_is_what_waybar_expects() {
    let counts = Counts {
        open: 3,
        today: 0,
        overdue: 1,
        ..Counts::default()
    };
    assert_eq!(
        status_json(counts),
        r#"{"text":"3 ○ 1!","tooltip":"3 open, 1 overdue","class":"overdue"}"#
    );
}

#[test]
fn a_quiet_list_gets_no_exclamation_mark_and_no_overdue_clause() {
    let counts = Counts {
        open: 2,
        today: 1,
        overdue: 0,
        ..Counts::default()
    };
    assert_eq!(
        status_json(counts),
        r#"{"text":"2 ○","tooltip":"2 open, 1 due today","class":"due"}"#
    );
    assert_eq!(
        status_json(Counts::default()),
        r#"{"text":"0 ○","tooltip":"0 open","class":"ok"}"#
    );
}

#[test]
fn a_porcelain_line_always_has_five_fields() {
    let cases = [
        "everything @2026-08-12 #ops #home !high",
        "bare",
        "dated @2026-08-12",
        "tagged #ops",
    ];
    for text in cases {
        let line = porcelain_line(&capture(text, today()));
        assert_eq!(line.split('\t').count(), 5, "{text} → {line:?}");
    }
}

#[test]
fn the_porcelain_fields_are_state_date_title_tags_priority() {
    let t = capture("write the deploy plan @2026-08-12 #ops #home !high", today());
    assert_eq!(
        porcelain_line(&t),
        "open\t2026-08-12\twrite the deploy plan\tops,home\thigh"
    );

    assert_eq!(
        porcelain_line(&capture("call the bank", today())),
        "open\t\tcall the bank\t\t"
    );
}

#[test]
fn porcelain_says_done_and_drops_the_overdue_distinction() {
    let mut t = capture("close the old PRs @2026-08-09 #ops", today());
    assert!(t.is_overdue(today()), "the fixture is meant to be late");
    assert!(porcelain_line(&t).starts_with("open\t"));

    t.set_state(State::Done, today());
    assert_eq!(porcelain_line(&t), "done\t2026-08-09\tclose the old PRs\tops\t");
}

#[test]
fn a_time_does_not_reach_the_date_field() {
    let t = capture("standup @2026-08-12 09:30", today());
    assert_eq!(porcelain_line(&t).split('\t').nth(1), Some("2026-08-12"));
}

#[test]
fn a_tab_in_a_title_cannot_invent_a_field() {
    let mut t = capture("harmless", today());
    t.title = "two\tcolumns".into();
    let line = porcelain_line(&t);
    assert_eq!(line.split('\t').count(), 5, "{line:?}");
    assert!(line.contains("two\u{fffd}columns"), "{line:?}");
}

#[test]
fn list_lines_carry_every_field() {
    let t = capture("a @2026-08-12 16:00 #x #y !low", today());
    assert_eq!(list_line(&t, today()), "  [ ] a  2026-08-12 16:00  #x  #y  !low");
    assert_eq!(t.priority, Some(Priority::Low));
}

#[test]
fn a_cancelled_task_shows_its_own_mark() {
    let mut t = capture("a @2026-08-08", today());
    t.set_state(State::Cancelled, today());
    assert!(!t.is_overdue(today()));
    assert_eq!(list_line(&t, today()), "  [-] a  2026-08-08");
    assert_eq!(porcelain_line(&t), "cancelled\t2026-08-08\ta\t\t");
}
