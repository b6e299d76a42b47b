use ratodo::capture::capture;
use ratodo::date::Date;
use ratodo::ics::{calendar, escape, fnv1a, ics_priority, Moment};
use ratodo::model::{Priority, State, Task};

fn today() -> Date {
    Date::from_ymd(2026, 8, 10).unwrap()
}

fn now() -> Moment {
    Moment { date: today(), hour: 9, minute: 30, second: 0 }
}

fn task(text: &str) -> Task {
    capture(text, today())
}

fn lines(ics: &str) -> Vec<&str> {
    ics.split("\r\n").filter(|l| !l.is_empty()).collect()
}

fn uids(ics: &str) -> Vec<String> {
    lines(ics)
        .into_iter()
        .filter(|l| l.starts_with("UID:"))
        .map(str::to_string)
        .collect()
}

#[test]
fn the_shape_documented_in_calendar_md() {
    let ics = calendar(&[task("pay the invoice @2026-08-12 #home !high")], now());
    let lines = lines(&ics);

    assert_eq!(lines[0], "BEGIN:VCALENDAR");
    assert_eq!(lines[1], "VERSION:2.0");
    assert_eq!(lines[2], "PRODID:-//ratodo//EN");
    assert_eq!(lines[3], "BEGIN:VTODO");
    assert!(lines[4].starts_with("UID:"), "{lines:?}");
    assert_eq!(lines[5], "DTSTAMP:20260810T093000Z");
    assert_eq!(lines[6], "DUE;VALUE=DATE:20260812");
    assert_eq!(lines[7], "SUMMARY:pay the invoice");
    assert_eq!(lines[8], "CATEGORIES:home");
    assert_eq!(lines[9], "PRIORITY:1");
    assert_eq!(lines[10], "STATUS:NEEDS-ACTION");
    assert_eq!(lines[11], "END:VTODO");
    assert_eq!(lines[12], "END:VCALENDAR");
    assert_eq!(lines.len(), 13);
}

#[test]
fn an_empty_list_is_still_a_valid_calendar() {
    assert_eq!(
        calendar(&[], now()),
        "BEGIN:VCALENDAR\r\nVERSION:2.0\r\nPRODID:-//ratodo//EN\r\nEND:VCALENDAR\r\n"
    );
}

#[test]
fn only_open_dated_tasks_are_exported() {
    let mut done = task("finished @2026-08-12");
    done.set_state(State::Done, today());
    let tasks = [done, task("undated"), task("kept @2026-08-12")];

    let ics = calendar(&tasks, now());
    assert_eq!(ics.matches("BEGIN:VTODO").count(), 1, "{ics}");
    assert!(ics.contains("SUMMARY:kept"), "{ics}");
}

#[test]
fn a_priority_or_a_tag_that_is_absent_leaves_out_its_line() {
    let ics = calendar(&[task("bare @2026-08-12")], now());
    assert!(!ics.contains("PRIORITY"), "{ics}");
    assert!(!ics.contains("CATEGORIES"), "{ics}");
}

#[test]
fn the_three_priorities_map_to_the_documented_numbers() {
    for (word, number) in [("!high", 1), ("!med", 5), ("!low", 9)] {
        let ics = calendar(&[task(&format!("a @2026-08-12 {word}"))], now());
        assert!(ics.contains(&format!("PRIORITY:{number}\r\n")), "{word}");
    }
    assert_eq!(ics_priority(Priority::High), 1);
    assert_eq!(ics_priority(Priority::Med), 5);
    assert_eq!(ics_priority(Priority::Low), 9);
}

#[test]
fn a_time_becomes_a_floating_date_time_and_a_bare_date_stays_a_date() {
    let timed = calendar(&[task("standup @2026-08-12 09:30")], now());
    assert!(timed.contains("DUE:20260812T093000\r\n"), "{timed}");
    assert!(!timed.contains("DUE:20260812T093000Z"), "{timed}");

    let dated = calendar(&[task("someday @2026-08-12")], now());
    assert!(dated.contains("DUE;VALUE=DATE:20260812\r\n"), "{dated}");
}

#[test]
fn a_uid_does_not_move_between_writes() {
    let tasks = [task("pay the invoice @2026-08-12")];
    let first = calendar(&tasks, now());
    let new_year = Moment { date: Date::from_ymd(2027, 1, 1).unwrap(), hour: 0, minute: 0, second: 0 };
    let later = calendar(&tasks, new_year);
    assert_eq!(uids(&first)[0], uids(&later)[0]);
    assert!(later.contains("DTSTAMP:20270101T000000Z"), "{later}");
}

#[test]
fn the_hash_is_pinned_not_borrowed() {
    assert_eq!(fnv1a(b""), 0xcbf2_9ce4_8422_2325);
    assert_eq!(fnv1a(b"a"), 0xaf63_dc4c_8601_ec8c);
    assert_eq!(fnv1a(b"ratodo"), 0x84cf_cabf_1dd1_fa84);
}

#[test]
fn a_date_change_updates_the_entry_rather_than_replacing_it() {
    let before = calendar(&[task("pay the invoice @2026-08-12")], now());
    let after = calendar(&[task("pay the invoice @2026-09-01 #new !low")], now());
    assert_eq!(uids(&before)[0], uids(&after)[0], "the date is not the identity");
}

#[test]
fn the_same_task_in_two_files_gets_two_entries() {
    let mut tasks = [task("fix the tap @2026-08-12"), task("fix the tap @2026-08-12")];
    for (task, file) in tasks.iter_mut().zip(["work.md", "home.md"]) {
        task.file = Some(file.to_string());
    }

    let ics = calendar(&tasks, now());
    let uids = uids(&ics);
    assert_eq!(uids.len(), 2, "{ics}");
    assert_ne!(uids[0], uids[1], "one entry for two files: {uids:?}");
}

#[test]
fn identical_tasks_still_get_one_entry_each() {
    let one = task("standup @2026-08-12");
    let ics = calendar(&[one.clone(), one.clone(), one], now());

    let uids = uids(&ics);
    assert_eq!(uids.len(), 3);
    assert_eq!(uids.iter().collect::<std::collections::HashSet<_>>().len(), 3, "{ics}");
}

#[test]
fn a_duplicate_appearing_later_leaves_the_first_uid_alone() {
    let one = task("standup @2026-08-12");
    let alone = uids(&calendar(std::slice::from_ref(&one), now()));
    let crowded = uids(&calendar(&[one.clone(), one], now()));

    assert_eq!(alone[0], crowded[0]);
    assert_ne!(crowded[0], crowded[1]);
}

#[test]
fn the_same_title_under_two_headings_is_two_tasks() {
    let mut work = task("standup @2026-08-12");
    work.section = Some("Work".into());
    let mut home = task("standup @2026-08-12");
    home.section = Some("Home".into());

    let uids = uids(&calendar(&[work, home], now()));
    assert_ne!(uids[0], uids[1]);
}

#[test]
fn the_characters_rfc_5545_treats_as_syntax() {
    let mut t = task("a @2026-08-12");
    t.title = "buy milk, bread; and \\ a note".into();
    let ics = calendar(&[t], now());
    assert!(ics.contains("SUMMARY:buy milk\\, bread\\; and \\\\ a note"), "{ics}");
    assert_eq!(escape("a,b;c\\d\ne"), "a\\,b\\;c\\\\d\\ne");
}

#[test]
fn a_control_character_never_reaches_the_file() {
    let mut t = task("a @2026-08-12");
    t.title = "wipe\x1b[2J".into();
    let ics = calendar(&[t], now());
    assert!(!ics.contains('\x1b'), "{ics}");
    assert!(ics.contains('\u{fffd}'), "{ics}");
}

#[test]
fn a_newline_in_a_title_cannot_start_a_new_property() {
    let mut t = task("a @2026-08-12");
    t.title = "first\nSUMMARY:injected".into();
    let ics = calendar(&[t], now());
    assert!(ics.contains("SUMMARY:first\\nSUMMARY:injected"), "{ics}");
    assert_eq!(ics.matches("\r\nSUMMARY:").count(), 1, "{ics}");
}

#[test]
fn no_line_is_longer_than_seventy_five_octets() {
    let mut t = task("a @2026-08-12");
    t.title = "ş".repeat(200);
    let ics = calendar(&[t], now());

    for line in ics.split("\r\n") {
        assert!(line.len() <= 75, "{} octets: {line:?}", line.len());
    }
}

#[test]
fn seventy_five_is_the_limit_and_not_one_less() {
    let mut fits = String::new();
    ratodo::ics::line(&"x".repeat(75), &mut fits);
    assert_eq!(fits, format!("{}\r\n", "x".repeat(75)), "75 got folded");

    let mut over = String::new();
    ratodo::ics::line(&"x".repeat(76), &mut over);
    assert_eq!(over, format!("{}\r\n x\r\n", "x".repeat(75)), "76 did not");
}

#[test]
fn folding_never_cuts_a_character_in_half() {
    let title = "şğüöç 🚀".repeat(20);
    let mut t = task("a @2026-08-12");
    t.title = title.clone();
    let ics = calendar(&[t], now());

    let unfolded = ics.replace("\r\n ", "");
    assert!(unfolded.contains(&title), "{unfolded}");
}

#[test]
fn every_line_ends_crlf_and_none_ends_bare_lf() {
    let ics = calendar(&[task("a @2026-08-12"), task("b @2026-08-13")], now());
    assert!(ics.ends_with("END:VCALENDAR\r\n"));
    assert_eq!(ics.matches('\n').count(), ics.matches("\r\n").count(), "{ics:?}");
}
