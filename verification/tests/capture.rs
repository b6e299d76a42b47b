use ratodo::capture::{capture, later, parse_priority, parts, resolve_date, Part};
use ratodo::date::Date;
use ratodo::model::Priority;

/// A Monday, matching the reference date the docs use throughout.
fn today() -> Date {
    Date::from_ymd(2026, 8, 10).unwrap()
}

fn ymd(y: i32, m: u32, d: u32) -> Date {
    Date::from_ymd(y, m, d).unwrap()
}

#[test]
fn the_examples_from_the_docs() {
    assert_eq!(
        capture("pay the invoice @tomorrow", today()).raw,
        "- [ ] pay the invoice @2026-08-11"
    );
    assert_eq!(
        capture("report @mon !high", today()).raw,
        "- [ ] report @2026-08-17 !high"
    );
    assert_eq!(
        capture("run a backup @3d", today()).raw,
        "- [ ] run a backup @2026-08-13"
    );
}

#[test]
fn shorthand_never_reaches_the_file() {
    for text in ["a @today", "a @tomorrow", "a @sun", "a @2w", "a @1d"] {
        let raw = capture(text, today()).raw;
        assert!(!raw.contains("@to"), "{raw}");
        assert!(raw.contains("@2026-"), "{raw}");
    }
}

#[test]
fn how_long_takes_a_bare_number_of_days_as_well() {
    assert_eq!(later("2", today()), Some(ymd(2026, 8, 12)));
    assert_eq!(later("0", today()), Some(today()), "today, and not an error");
    assert_eq!(later("  3  ", today()), Some(ymd(2026, 8, 13)));

    assert_eq!(later("3d", today()), Some(ymd(2026, 8, 13)));
    assert_eq!(later("1w", today()), Some(ymd(2026, 8, 17)));
    assert_eq!(later("fri", today()), Some(ymd(2026, 8, 14)));
    assert_eq!(later("tomorrow", today()), Some(ymd(2026, 8, 11)));
    assert_eq!(later("2026-09-01", today()), Some(ymd(2026, 9, 1)));

    for nonsense in ["", "   ", "3x", "-1", "soon", "2026-13-45"] {
        assert_eq!(later(nonsense, today()), None, "{nonsense:?}");
    }
}

#[test]
fn a_bare_number_is_not_a_date_in_a_sentence() {
    let task = capture("chapter @2 of the book", today());
    assert_eq!(task.due, None);
    assert_eq!(task.title, "chapter @2 of the book");
}

#[test]
fn weekday_is_always_in_the_future() {
    for (name, expected) in [
        ("mon", ymd(2026, 8, 17)),
        ("tue", ymd(2026, 8, 11)),
        ("wed", ymd(2026, 8, 12)),
        ("thu", ymd(2026, 8, 13)),
        ("fri", ymd(2026, 8, 14)),
        ("sat", ymd(2026, 8, 15)),
        ("sun", ymd(2026, 8, 16)),
    ] {
        assert_eq!(resolve_date(name, today()), Some(expected), "@{name}");
    }
}

#[test]
fn weekdays_from_the_middle_of_the_week() {
    let wednesday = ymd(2026, 8, 12);
    for (name, expected) in [
        ("thu", ymd(2026, 8, 13)),
        ("fri", ymd(2026, 8, 14)),
        ("sun", ymd(2026, 8, 16)),
        ("mon", ymd(2026, 8, 17)),
        ("tue", ymd(2026, 8, 18)),
        ("wed", ymd(2026, 8, 19)),
    ] {
        assert_eq!(resolve_date(name, wednesday), Some(expected), "@{name}");
    }

    let sunday = ymd(2026, 8, 16);
    assert_eq!(resolve_date("mon", sunday), Some(ymd(2026, 8, 17)));
    assert_eq!(resolve_date("sat", sunday), Some(ymd(2026, 8, 22)));
    assert_eq!(resolve_date("sun", sunday), Some(ymd(2026, 8, 23)));
}

#[test]
fn every_priority_is_recognised() {
    for (word, expected) in [
        ("!high", Priority::High),
        ("!med", Priority::Med),
        ("!low", Priority::Low),
    ] {
        assert_eq!(parse_priority(word), Some(expected), "{word}");
    }
    assert_eq!(parse_priority("!urgent"), None);
    assert_eq!(parse_priority("high"), None);
}

#[test]
fn offsets() {
    assert_eq!(resolve_date("today", today()), Some(ymd(2026, 8, 10)));
    assert_eq!(resolve_date("0d", today()), Some(ymd(2026, 8, 10)));
    assert_eq!(resolve_date("2w", today()), Some(ymd(2026, 8, 24)));
    assert_eq!(resolve_date("30d", today()), Some(ymd(2026, 9, 9)));
}

#[test]
fn absurd_offsets_do_not_panic() {
    for s in [
        "99999999999999999999d",
        "2635249153387078802w",
        "999999999d",
    ] {
        assert_eq!(resolve_date(s, today()), None, "{s}");
    }
}

#[test]
fn a_large_but_real_offset_still_works() {
    assert_eq!(resolve_date("9999999d", today()), Date::from_ymd(29405, 9, 4));
}

#[test]
fn nonsense_dates_stay_in_the_title() {
    let t = capture("a @whenever b @2026-13-45", today());
    assert!(t.due.is_none());
    assert_eq!(t.title, "a @whenever b @2026-13-45");
}

#[test]
fn full_line() {
    let t = capture("call the accountant @thu 09:30 #work #money !high", today());
    assert_eq!(
        t.raw,
        "- [ ] call the accountant @2026-08-13 09:30 #work #money !high"
    );
}

#[test]
fn an_iso_date_passes_straight_through() {
    assert_eq!(capture("a @2026-12-01", today()).raw, "- [ ] a @2026-12-01");
}

#[test]
fn a_capture_round_trips_through_the_parser() {
    let t = capture("fatura öde @tomorrow #ev !med", today());
    let parsed = ratodo::parse::parse(&t.raw);
    let tasks = parsed.tasks();
    let back = tasks[0];
    assert_eq!(back.title, "fatura öde");
    assert_eq!(back.due, t.due);
    assert_eq!(back.tags, t.tags);
    assert_eq!(back.priority, t.priority);
}

#[test]
fn every_word_is_claimed_by_one_part_as_a_byte_range() {
    let text = "şu @tomorrow 09:30 #ev !high rest";
    let got: Vec<(&str, Part)> = parts(text, today())
        .into_iter()
        .map(|(range, part)| (&text[range], part))
        .collect();
    assert_eq!(
        got,
        vec![
            ("şu", Part::Text),
            ("@tomorrow", Part::Date),
            ("09:30", Part::Time),
            ("#ev", Part::Tag),
            ("!high", Part::Priority),
            ("rest", Part::Text),
        ]
    );
}

#[test]
fn a_time_on_its_own_is_a_word_of_the_title() {
    let t = capture("09:30 standup", today());
    assert_eq!(t.title, "09:30 standup");
    assert!(t.due.is_none());
}

#[test]
fn only_the_first_date_is_taken() {
    let t = capture("a @tomorrow @fri", today());
    assert_eq!(t.due.unwrap().date, ymd(2026, 8, 11));
    assert_eq!(t.title, "a @fri");
}

#[test]
fn how_long_stops_at_a_year_unless_the_date_is_written() {
    assert_eq!(later("366", today()), Some(ymd(2027, 8, 11)));
    assert_eq!(later("52w", today()), Some(ymd(2027, 8, 9)));
    for far in ["367", "2222", "2222d", "222w", "53w"] {
        assert_eq!(later(far, today()), None, "{far:?}");
    }
    assert_eq!(later("2032-09-10", today()), Some(ymd(2032, 9, 10)));
}

#[test]
fn a_written_date_resolves_to_the_day_it_spells() {
    assert_eq!(resolve_date("2032-09-10", today()), Some(ymd(2032, 9, 10)));
    assert_eq!(resolve_date("2026-02-30", today()), None);
    assert_eq!(Date::parse_iso("2028-02-29"), Some(ymd(2028, 2, 29)));
    assert_eq!(Date::parse_iso("2027-02-29"), None);
}

#[test]
fn a_dollar_word_never_lands_in_the_task() {
    let task = capture("call the accountant @thu $work", today());
    assert_eq!(task.title, "call the accountant");
    assert_eq!(task.raw, "- [ ] call the accountant @2026-08-13");
    let lone = capture("the price is $ 5", today());
    assert_eq!(lone.title, "the price is $ 5");
}
