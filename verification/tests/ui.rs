use ratodo::capture::capture;
use ratodo::date::Date;
use ratodo::model::{State, Task};
use ratodo::parse::parse;
use ratodo::ui::{
    bar_of, filled, gauge, radios, replace_date, shorten, sparkline, DateField, DatePart, Glyphs,
    Input, Purpose, BAR,
};

fn today() -> Date {
    Date::from_ymd(2026, 8, 10).unwrap()
}

fn ymd(y: i32, m: u32, d: u32) -> Date {
    Date::from_ymd(y, m, d).unwrap()
}

/// Display columns, measured the way the screen measures them.
fn columns(text: &str) -> usize {
    ratatui::text::Span::raw(text).width()
}

#[test]
fn the_sparkline_has_no_ascii_form_and_says_so_by_not_being_there() {
    let week = [1, 0, 3, 0, 0, 0, 0];
    assert_eq!(sparkline(week, Glyphs::Unicode).as_deref(), Some("▃▁█▁▁▁▁"));
    assert_eq!(sparkline(week, Glyphs::Ascii), None);
    assert_eq!(sparkline([0; 7], Glyphs::Unicode), None);

    let tall = sparkline([9, 1, 0, 0, 0, 0, 0], Glyphs::Unicode).unwrap();
    assert!(tall.starts_with('█'), "{tall}");
    assert!(tall.ends_with("▁▁▁▁▁"), "{tall}");
}

#[test]
fn a_bar_is_a_length_and_only_the_gauge_has_a_trough() {
    assert_eq!(bar_of(4, 4, 8, Glyphs::Unicode), "████████");
    assert_eq!(bar_of(2, 4, 8, Glyphs::Unicode), "████");
    assert_eq!(bar_of(1, 100, 8, Glyphs::Unicode), "█");
    assert_eq!(bar_of(0, 4, 8, Glyphs::Unicode), "░");
    assert_eq!(bar_of(0, 0, 8, Glyphs::Unicode), "");

    assert_eq!(gauge(1, 4, 8, Glyphs::Unicode), "██░░░░░░");
    assert_eq!(gauge(0, 4, 8, Glyphs::Unicode), "░░░░░░░░");
    assert_eq!(gauge(4, 4, 8, Glyphs::Unicode), "████████");
    assert_eq!(gauge(1, 0, 8, Glyphs::Unicode), "");

    assert_eq!(bar_of(2, 4, 8, Glyphs::Ascii), "####");
    assert_eq!(gauge(2, 4, 8, Glyphs::Ascii), "####....");
}

#[test]
fn the_bar_never_reads_empty_with_work_done_or_full_with_work_left() {
    assert_eq!(filled(0, 8), 0);
    assert_eq!(filled(8, 8), BAR);
    assert_eq!(filled(4, 8), 4);
    assert_eq!(filled(1, 100), 1, "one task in a hundred still moved the bar");
    assert_eq!(filled(99, 100), BAR - 1, "one task left is not a finished list");
}

#[test]
fn the_locale_decides_the_glyphs() {
    for utf8 in ["en_US.UTF-8", "tr_TR.utf8", "C.UTF-8", "en_GB.UTF8"] {
        assert_eq!(Glyphs::for_locale(Some(utf8)), Glyphs::Unicode, "{utf8}");
    }
    for plain in ["C", "POSIX", "en_US", "en_US.ISO-8859-1"] {
        assert_eq!(Glyphs::for_locale(Some(plain)), Glyphs::Ascii, "{plain}");
    }
    assert_eq!(Glyphs::for_locale(None), Glyphs::Ascii);
}

#[test]
fn the_mark_width_matches_every_mark_in_its_set() {
    let mut done = capture("done", today());
    done.set_state(State::Done, today());
    let cases = [capture("open", today()), capture("late @2026-08-01", today()), done];

    for glyphs in [Glyphs::Unicode, Glyphs::Ascii] {
        for task in &cases {
            assert_eq!(columns(glyphs.mark(task, today())), glyphs.mark_width(), "{glyphs:?}");
        }
    }
}

#[test]
fn every_state_has_its_own_mark() {
    let mut task = capture("a", today());
    let marks = |task: &Task| (Glyphs::Unicode.mark(task, today()), Glyphs::Ascii.mark(task, today()));

    assert_eq!(marks(&task), ("○", "[ ]"));
    task.set_state(State::Done, today());
    assert_eq!(marks(&task), ("✓", "[x]"));
    task.set_state(State::Cancelled, today());
    assert_eq!(marks(&task), ("✗", "[-]"));

    let mut late = capture("a @2026-08-01", today());
    assert_eq!(marks(&late), ("!", "[!]"));
    late.set_state(State::Cancelled, today());
    assert_eq!(marks(&late), ("✗", "[-]"));
    assert!(!late.is_overdue(today()));
}

#[test]
fn shortening_counts_columns_not_bytes() {
    assert_eq!(shorten("hello", 10, Glyphs::Unicode), "hello");
    assert_eq!(shorten("hello there", 8, Glyphs::Unicode), "hello t…");
    assert_eq!(shorten("şşşşş", 3, Glyphs::Unicode), "şş…");
    assert_eq!(shorten("🚀🚀🚀", 5, Glyphs::Unicode), "🚀🚀…");
    assert_eq!(shorten("anything", 0, Glyphs::Unicode), "");

    assert_eq!(shorten("hello there", 8, Glyphs::Ascii), "hello...");
    assert_eq!(shorten("hello", 10, Glyphs::Ascii), "hello");
    assert_eq!(shorten("hello", 2, Glyphs::Ascii), "he");
    assert_eq!(columns("şğüöç"), 5);
    assert_eq!(columns("🚀"), 2);
    // The same widths, as the library's own shortening sees them.
    assert_eq!(shorten("şğüöç", 5, Glyphs::Unicode), "şğüöç");
    assert_eq!(shorten("🚀", 2, Glyphs::Unicode), "🚀");
}

#[test]
fn the_form_is_ascii_under_a_c_locale() {
    assert_eq!(radios(&[("a".into(), true), ("b".into(), false)], Glyphs::Ascii), "(o) a  ( ) b");
    assert_eq!(radios(&[("a".into(), true), ("b".into(), false)], Glyphs::Unicode), "◉ a  ○ b");
}

#[test]
fn editing_is_pre_filled_from_the_line_as_the_file_has_it() {
    let doc = parse("  * [x] wash up @2026-08-12 #home\n");
    let task = doc.tasks()[0];

    let input = Input::editing(task);
    assert_eq!(input.text, "wash up @2026-08-12 #home");
    assert_eq!(input.purpose.raw(), Some("  * [x] wash up @2026-08-12 #home"));
    assert_eq!(Input::adding(today()).purpose, Purpose::Add);
    assert_eq!(input.at, input.text.len());
}

#[test]
fn adding_opens_with_todays_date_in_the_box() {
    let input = Input::adding(today());
    assert_eq!(input.text, " @2026-08-10");
    assert_eq!(input.at, 0);
    assert_eq!(capture(&input.text, today()).due.unwrap().date, today());
}

#[test]
fn a_typed_date_takes_the_opening_ones_place() {
    let mut input = Input::adding(today());
    for c in "milk @thu #home".chars() {
        input.insert(c);
    }
    assert_eq!(input.text, "milk @thu #home");
    assert_eq!(input.at, input.text.len());
    assert_eq!(capture(&input.text, today()).title, "milk");

    let mut twice = Input::adding(today());
    for c in "mail @thu bob@work".chars() {
        twice.insert(c);
    }
    assert_eq!(twice.text, "mail @thu bob@work");

    let mut plain = Input::adding(today());
    for c in "milk".chars() {
        plain.insert(c);
    }
    assert_eq!(plain.text, "milk @2026-08-10");
}

#[test]
fn a_copy_starts_from_the_task_and_saves_as_a_new_one() {
    let doc = parse("  * [ ] wash up @2026-08-12 #home !high\n");
    let task = doc.tasks()[0];

    let input = Input::duplicating(task, today());
    assert_eq!(input.text, "wash up @2026-08-12 #home !high");
    assert_eq!(input.purpose, Purpose::Copy);
    assert_eq!(input.purpose.raw(), None, "a copy rewrites no line");
    assert_eq!(input.at, input.text.len());
    assert_eq!(input.purpose.label(), "COPY");
}

#[test]
fn a_copy_of_a_finished_task_does_not_carry_the_stamp() {
    let doc = parse("- [x] ship the release @2026-08-08 ✓2026-08-10 #ops\n");
    let task = doc.tasks()[0];

    let input = Input::duplicating(task, today());
    assert_eq!(input.text, "ship the release @2026-08-08 #ops");

    let fresh = capture(&input.text, today());
    assert_eq!(fresh.state, State::Open);
    assert_eq!(fresh.done_on, None);
}

#[test]
fn a_copy_of_a_cancelled_task_comes_back_open() {
    let doc = parse("- [-] learn the flute #someday\n");
    let task = doc.tasks()[0];

    let input = Input::duplicating(task, today());
    assert_eq!(input.text, "learn the flute #someday");
    assert_eq!(capture(&input.text, today()).state, State::Open);
}

#[test]
fn the_caret_moves_through_the_line_and_edits_where_it_stands() {
    let mut input = Input::new("wash şu".to_string(), Purpose::Add);

    input.left();
    input.left();
    assert_eq!(input.at, "wash ".len());
    input.insert('b');
    assert_eq!(input.text, "wash bşu");

    input.home();
    input.right();
    input.back();
    assert_eq!((input.text.as_str(), input.at), ("ash bşu", 0));

    input.back();
    input.end();
    input.right();
    input.delete();
    assert_eq!((input.text.as_str(), input.at), ("ash bşu", 8));

    input.home();
    input.delete();
    assert_eq!((input.text.as_str(), input.at), ("sh bşu", 0));
}

#[test]
fn the_date_field_cannot_produce_a_day_that_does_not_exist() {
    let jan = ymd(2026, 1, 31);

    let mut field = DateField::new(jan);
    field.move_to(true);
    field.step(1);
    assert_eq!(field.date(), ymd(2026, 2, 28));

    let mut field = DateField::new(ymd(2028, 1, 31));
    field.move_to(true);
    field.step(1);
    assert_eq!(field.date(), ymd(2028, 2, 29));

    let mut field = DateField::new(jan);
    for i in 0..100 {
        field.step(if i % 3 == 0 { -1 } else { 1 });
        field.move_to(i % 5 == 0);
        let date = field.date();
        assert_eq!(Date::from_ymd(date.year, date.month, date.day), Some(date));
    }

    let mut field = DateField::new(ymd(2026, 4, 30));
    field.step(1);
    assert_eq!(field.date(), ymd(2026, 4, 1));
    field.step(-1);
    assert_eq!(field.date(), ymd(2026, 4, 30));

    let mut field = DateField::new(ymd(2026, 12, 1));
    field.move_to(true);
    field.step(1);
    assert_eq!(field.date(), ymd(2026, 1, 1));
    field.move_to(true);
    field.step(-100_000);
    assert_eq!(field.date().year, 1970);
}

#[test]
fn eight_digits_fill_the_date_in_order() {
    let type_in = |keys: &str| {
        let mut field = DateField::new(ymd(2026, 1, 1));
        for c in keys.chars() {
            field.digit(c.to_digit(10).expect("a digit"));
        }
        field.date()
    };

    assert_eq!(type_in("13082026"), ymd(2026, 8, 13));
    assert_eq!(type_in("01012030"), ymd(2030, 1, 1));
    assert_eq!(type_in("452026"), ymd(2026, 5, 4));

    let mut field = DateField::new(ymd(2026, 1, 1));
    for c in "0113".chars() {
        field.digit(c.to_digit(10).unwrap());
    }
    assert_eq!(field.month, 1, "a 13th month was reachable");
    assert_eq!(field.part, DatePart::Year);
}

#[test]
fn the_date_field_row_is_steady_and_fits() {
    let mut input = Input::new("renew the passport".to_string(), Purpose::Add);
    input.toggle_field(ymd(2026, 8, 11));
    let cells = input.field.unwrap().cells();
    assert_eq!(cells[0], (DatePart::Day, "[11]".to_string()));
    assert_eq!(cells[1], (DatePart::Month, " 08 ".to_string()));
    assert_eq!(cells[2], (DatePart::Year, " 2026 ".to_string()));
    let day: String = cells.iter().map(|c| c.1.as_str()).collect();
    assert!(day.contains("[11] 08  2026 "), "{day:?}");
    assert_eq!(input.field.unwrap().part, DatePart::Day);
    input.right();
    assert_eq!(input.field.unwrap().part, DatePart::Month);
    let month: String = input.field.unwrap().cells().iter().map(|c| c.1.clone()).collect();
    assert!(month.contains(" 11 [08] 2026"), "{month:?}");
    assert_eq!(columns(&day), columns(&month), "the row moved sideways with the cursor");
    assert!(columns(&month) <= 28 && month.is_ascii());
    assert_eq!(input.text, "renew the passport");
}

#[test]
fn the_field_writes_one_word_into_the_line() {
    let today = today();
    let apply = |text: &str, purpose: Purpose| {
        let mut input = Input::new(text.to_string(), purpose);
        input.toggle_field(today);
        input.field.as_mut().expect("the field is open").day = 20;
        assert!(input.apply_field());
        input.text
    };

    assert_eq!(
        apply("call the accountant @2026-08-13 #work", Purpose::Add),
        "call the accountant @2026-08-20 #work"
    );
    assert_eq!(
        apply("call the accountant @thu !high", Purpose::Add),
        "call the accountant @2026-08-20 !high"
    );
    assert_eq!(apply("call the accountant", Purpose::Add), "call the accountant @2026-08-20");
    assert_eq!(apply("", Purpose::Add), "@2026-08-20");
    assert_eq!(apply("", Purpose::Postpone(String::new())), "2026-08-20");
    assert_eq!(apply("pay it @2026-13-45 #home", Purpose::Add), "pay it @2026-08-20 #home");
}

#[test]
fn esc_closes_the_field_before_the_box() {
    let mut input = Input::new("water the plants".to_string(), Purpose::Add);
    assert!(!input.close_field(), "there was nothing open to close");

    input.toggle_field(today());
    assert!(input.field.is_some());

    input.insert('1');
    input.insert('5');
    assert_eq!(input.text, "water the plants");

    assert!(input.close_field(), "esc did not take the field");
    assert_eq!(input.text, "water the plants", "esc changed the line");
    assert!(!input.close_field(), "the second esc is the box's");

    input.insert('!');
    assert_eq!(input.text, "water the plants!");
}

#[test]
fn replacing_a_date_keeps_the_rest_of_the_sentence() {
    assert_eq!(replace_date("a @2026-08-13 #x", "@2026-08-20"), "a @2026-08-20 #x");
    assert_eq!(replace_date("a #x", "@2026-08-20"), "a #x @2026-08-20");
    assert_eq!(replace_date("", "@2026-08-20"), "@2026-08-20");
}
