use ratodo::agenda::{agenda, Counts};
use ratodo::layout::notice_line;
use ratodo::ui::{Input, Notice, Purpose};
use ratodo::capture::capture;
use ratodo::date::Date;
use ratodo::layout::{boxed, empty_lines, group_edge, header_line, task_line, Columns, Ink, Piece, RULED};
use ratodo::model::{State, Task};
use ratodo::theme::{mocha, Theme};
use ratodo::ui::{rows, Glyphs, Row, Size};

fn today() -> Date {
    Date::from_ymd(2026, 8, 10).unwrap()
}

fn columns(text: &str) -> usize {
    ratatui::text::Span::raw(text).width()
}

fn text_of(line: &[Piece]) -> String {
    line.iter().map(|p| p.text.as_str()).collect()
}

fn drawn(line: &[Piece]) -> usize {
    line.iter().map(|p| columns(&p.text)).sum()
}

fn one_row(task: &Task) -> Vec<Row> {
    vec![Row::Task(task.copied())]
}

#[test]
fn the_date_column_never_repeats_the_heading_above_it() {
    let column = |spec: &str| ratodo::ui::when(&capture(spec, today()), today(), Size::Wide);
    assert_eq!(column("a @2026-08-08"), "2d ago");
    assert_eq!(column("a @2026-08-10"), "");
    assert_eq!(column("a @2026-08-10 16:00"), "16:00");
    assert_eq!(column("a @2026-08-14"), "Fri");
    assert_eq!(column("a @2026-08-14 09:30"), "Fri 09:30");
    assert_eq!(column("a @2026-09-20"), "Sep 20");

    let rows = [
        Row::Task(capture("a @2026-08-10", today())),
        Row::Task(capture("b @2026-08-10", today())),
    ];
    assert_eq!(Columns::of(&rows, 86, Glyphs::Unicode, today(), Size::Wide).date, 0);
}

#[test]
fn the_column_widths_are_what_the_arithmetic_says() {
    let mut long = capture("a @2026-08-01 !high", today());
    long.title = "x".repeat(80);
    let rows = rows(&agenda(&[long], today()));
    let cols = Columns::of(&rows, 86, Glyphs::Unicode, today(), Size::Wide);
    assert_eq!(cols.date, 6 + RULED, "the date column");
    assert_eq!(cols.prio, 5 + RULED, "the priority column");
    assert_eq!(cols.title, 86 - 2 - (6 + RULED) - (5 + RULED), "the title column");
}

#[test]
fn an_empty_column_costs_nothing() {
    let bare = [capture("one @2026-08-01", today()), capture("two @2026-08-01", today())];
    let cols = Columns::of(&rows(&agenda(&bare, today())), 80, Glyphs::Unicode, today(), Size::Wide);
    assert_eq!(cols.prio, 0, "a priority column nobody filled");

    let some = [capture("one @2026-08-01 !high", today()), capture("two @2026-08-01", today())];
    let cols = Columns::of(&rows(&agenda(&some, today())), 80, Glyphs::Unicode, today(), Size::Wide);
    assert_eq!(cols.prio, 5 + RULED, "one task with a priority buys the column");
}

fn line_for(spec: &str, done: bool) -> (Task, Vec<Piece>) {
    let mut task = capture(spec, today());
    if done {
        task.set_state(State::Done, today());
    }
    let rows = one_row(&task);
    let cols = Columns::of(&rows, 86, Glyphs::Unicode, today(), Size::Wide);
    let line = task_line(&task, 86, cols, Glyphs::Unicode, today(), Size::Wide, mocha());
    (task, line)
}

#[test]
fn the_date_goes_loud_only_when_it_is_late_or_today() {
    let colours = mocha();
    let ink_of = |spec: &str, done: bool| {
        let (_, line) = line_for(spec, done);
        line[3..]
            .iter()
            .find(|p| {
                let text = p.text.trim();
                !text.is_empty() && text != Glyphs::Unicode.divider()
            })
            .expect("the date is on the row")
            .ink
    };

    assert_eq!(ink_of("a @2026-08-08", false).fg, Some(colours.overdue));
    assert_eq!(
        ratodo::ui::when(&capture("a @2026-08-10", today()), today(), Size::Wide),
        "",
        "the column repeated the heading"
    );
    assert_eq!(ink_of("a @2026-08-10 16:00", false).fg, Some(colours.today));
    assert_eq!(ink_of("a @2026-08-14", false).fg, Some(colours.dim));
    assert_eq!(ink_of("a @2026-08-08", true).fg, Some(colours.dim));
    assert_eq!(ink_of("a @2026-08-10", true).fg, Some(colours.dim));
}

#[test]
fn the_priority_is_its_own_colour_in_two_weights() {
    let colours = mocha();
    let ink_of = |spec: &str, done: bool| {
        let (task, line) = line_for(spec, done);
        let want = task.priority.expect("the spec has a priority").as_str();
        line.iter().find(|p| p.text == want).expect("the priority is on the row").ink
    };

    let high = ink_of("a @2026-08-14 !high", false);
    assert_eq!(high.fg, Some(colours.priority));
    assert!(high.bold, "the loud field is not loud: {high:?}");

    let med = ink_of("a @2026-08-14 !med", false);
    assert_eq!(med.fg, Some(colours.priority));
    assert!(!med.bold);

    let low = ink_of("a @2026-08-14 !low", false);
    assert_eq!(low.fg, Some(colours.dim));
    assert!(!low.bold);

    let late = ink_of("a @2026-08-08 !high", false);
    assert_eq!(late.fg, Some(colours.priority));
    assert_ne!(colours.priority, colours.accent);

    let ticked = ink_of("a @2026-08-14 !high", true);
    assert_eq!(ticked.fg, Some(colours.priority));
    assert!(ticked.bold);
    assert_eq!(ink_of("a @2026-08-14 !med", true).fg, Some(colours.priority));
    assert_eq!(ink_of("a @2026-08-14 !low", true).fg, Some(colours.dim));
}

#[test]
fn the_row_never_overruns_the_width_it_was_given() {
    let mut task = capture("a @2026-08-01 !high #alpha #bravo #charlie #delta", today());
    task.title = "a title long enough to leave the last tags nowhere to go".into();
    let rows = rows(&agenda(std::slice::from_ref(&task), today()));

    for width in [ratodo::layout::COLUMNS_AT, 82, 92, 140] {
        let cols = Columns::of(&rows, width, Glyphs::Unicode, today(), Size::Wide);
        let line = task_line(&task, width, cols, Glyphs::Unicode, today(), Size::Wide, mocha());
        let drawn = drawn(&line);
        assert!(drawn <= width, "at {width} the row overran by {}", drawn - width);
    }
}

#[test]
fn the_column_budget_follows_the_glyph_set() {
    let mut long = capture("a @2026-08-01", today());
    long.title = "x".repeat(80);
    let rows = rows(&agenda(&[long], today()));

    let unicode = Columns::of(&rows, 86, Glyphs::Unicode, today(), Size::Wide);
    let wider = Columns::of(&rows, 86, Glyphs::Ascii, today(), Size::Wide);
    assert_eq!(unicode.title, wider.title + 2, "the wider mark bought no width back");

    let rule = |cols: Columns, glyphs: Glyphs| drawn(&header_line("Work", 2, false, 86, cols, glyphs, mocha()));
    assert_eq!(
        rule(wider, Glyphs::Ascii),
        rule(unicode, Glyphs::Unicode),
        "the rule and the titles disagree about the mark"
    );
}

#[test]
fn a_narrow_row_is_mark_title_and_the_date_pushed_to_the_edge() {
    let task = capture("pay rent @2026-08-14", today());
    let cols = Columns::of(&one_row(&task), 40, Glyphs::Unicode, today(), Size::Narrow);
    assert_eq!(cols, Columns { title: 0, date: 0, prio: 0, tags: false });
    let line = task_line(&task, 40, cols, Glyphs::Unicode, today(), Size::Narrow, Theme::plain());
    // `○ `, the title, padding to the edge less the date's own gap and width.
    assert_eq!(text_of(&line), format!("○ pay rent{}  Fri", " ".repeat(40 - 2 - 8 - 5)));
    assert_eq!(drawn(&line), 40);
}

#[test]
fn a_wide_row_sits_in_its_columns_and_drops_the_tags_that_do_not_fit() {
    let task = capture("pay rent @2026-08-14 !high #home #money", today());
    let rows = one_row(&task);
    let cols = Columns::of(&rows, 80, Glyphs::Unicode, today(), Size::Wide);
    // `Fri` and `!high` with their rules; the title as wide as it is.
    assert_eq!(cols, Columns { title: 12, date: 3 + RULED, prio: 5 + RULED, tags: true });
    let line = task_line(&task, 80, cols, Glyphs::Unicode, today(), Size::Wide, Theme::plain());
    assert_eq!(text_of(&line), "○ pay rent     │ Fri │ !high │ #home  #money");
    // Two columns only for the tags: the first goes whole or not at all.
    let tight = Columns { title: 52, ..cols };
    let line = task_line(&task, 80, tight, Glyphs::Unicode, today(), Size::Wide, Theme::plain());
    assert_eq!(
        text_of(&line),
        format!("○ pay rent{} │ Fri │ !high │ #home", " ".repeat(52 - 8))
    );
    // No room even for the first: the rule still opens the empty column.
    let tighter = Columns { title: 58, ..cols };
    let line = task_line(&task, 80, tighter, Glyphs::Unicode, today(), Size::Wide, Theme::plain());
    assert_eq!(text_of(&line), format!("○ pay rent{} │ Fri │ !high │ ", " ".repeat(58 - 8)));
}

#[test]
fn the_dividers_are_one_past_each_column() {
    let cols = Columns { title: 20, date: 6, prio: 8, tags: true };
    assert_eq!(cols.dividers(2), vec![23, 29, 37]);
    let no_tags = Columns { title: 20, date: 6, prio: 0, tags: false };
    assert_eq!(no_tags.dividers(2), vec![23]);
    assert_eq!(Columns { title: 0, date: 6, prio: 8, tags: true }.dividers(2), Vec::<usize>::new());
}

#[test]
fn a_group_edge_has_its_corners_its_junctions_and_its_name() {
    let cols = Columns { title: 10, date: 6, prio: 0, tags: false };
    let edge = group_edge(true, "Work", 2, 24, cols, Glyphs::Unicode, Theme::plain());
    // The junction lands where the date's rule is in a boxed row: one past the
    // box side and the inset.
    assert_eq!(text_of(&edge), format!("╭─ Work · 2 {}┬{}╮", "─".repeat(3), "─".repeat(7)));
    let bottom = group_edge(false, "", 0, 24, cols, Glyphs::Unicode, Theme::plain());
    assert_eq!(text_of(&bottom), format!("╰{}┴{}╯", "─".repeat(14), "─".repeat(7)));
    assert_eq!(drawn(&bottom), 24);
    let tiny = group_edge(true, "Work", 2, 1, cols, Glyphs::Ascii, Theme::plain());
    assert_eq!(text_of(&tiny), "-");
}

#[test]
fn a_boxed_row_is_padded_to_its_right_side() {
    let row = vec![Piece { text: "○ a".to_string(), ink: Ink { fg: None, bold: false } }];
    let line = boxed(row, 10, Glyphs::Unicode, Theme::plain());
    assert_eq!(text_of(&line), "│ ○ a    │");
    assert_eq!(drawn(&line), 10);
}

#[test]
fn a_folded_heading_names_the_key_that_opens_it() {
    let cols = Columns { title: 0, date: 0, prio: 0, tags: false };
    let line = header_line("Work", 3, true, 20, cols, Glyphs::Ascii, Theme::plain());
    assert_eq!(text_of(&line), format!("Work / 3 {} l", "-".repeat(8)));
    assert!(line[0].ink.bold);
}

#[test]
fn the_bottom_line_says_keys_news_or_a_refusal() {
    let t = Theme::plain();
    let short = notice_line(&Notice::Hints, Size::Wide, 80, 9, Glyphs::Unicode, t);
    assert_eq!(short.text, " ?");
    let narrow = notice_line(&Notice::Hints, Size::Narrow, 50, 20, Glyphs::Unicode, t);
    assert_eq!(narrow.text, " [j k] [spc] [a] [d] [p] [?] [q]");
    let wide = notice_line(&Notice::Hints, Size::Wide, 80, 20, Glyphs::Unicode, t);
    assert_eq!(wide.text, ratodo::ui::hints(80, Glyphs::Unicode));
    let said = notice_line(&Notice::Said("done: a".to_string()), Size::Wide, 80, 20, Glyphs::Unicode, t);
    assert_eq!(said.text, " done: a");
    assert_eq!(said.ink.fg, Some(t.dim));
    let warned = notice_line(&Notice::Warned("no".to_string()), Size::Wide, 80, 20, Glyphs::Ascii, mocha());
    assert_eq!(warned.text, " ! no");
    assert_eq!(warned.ink.fg, Some(mocha().overdue));
}

#[test]
fn the_frame_rule_meets_both_sides() {
    let rule = ratodo::layout::rule_across(6, Glyphs::Unicode, Theme::plain());
    assert_eq!(rule.text, "├────┤");
    assert_eq!(ratodo::layout::rule_across(1, Glyphs::Ascii, Theme::plain()).text, "++");
}

#[test]
fn the_footer_shows_the_line_the_file_will_get() {
    let mut task = capture("call mum @2026-08-14", today());
    let before = ratodo::layout::footer_line(Some(&task), 40, Glyphs::Unicode, Theme::plain());
    assert_eq!(before.text, format!("  {}", task.raw));
    task.set_state(State::Done, today());
    let after = ratodo::layout::footer_line(Some(&task), 60, Glyphs::Unicode, Theme::plain());
    assert_eq!(after.text, "  - [x] call mum @2026-08-14 ✓2026-08-10");
    let cut = ratodo::layout::footer_line(Some(&task), 12, Glyphs::Ascii, Theme::plain());
    assert_eq!(columns(&cut.text), 12);
    assert_eq!(ratodo::layout::footer_line(None, 12, Glyphs::Ascii, Theme::plain()).text, "  ");
}

#[test]
fn the_progress_bar_waits_for_the_first_tick_and_for_room() {
    let t = Theme::plain();
    let none = Counts { open: 2, today: 0, overdue: 0, done: 0 };
    assert!(ratodo::layout::progress(none, 80, 10, Glyphs::Unicode, t).is_none());
    let some = Counts { open: 3, today: 0, overdue: 0, done: 1 };
    let bar = ratodo::layout::progress(some, 80, 10, Glyphs::Ascii, t).unwrap();
    assert_eq!(text_of(&bar), " ##------ 1/4 ");
    // 10 + 8 + 5 + 4 columns is 27: one short and it is left off.
    assert!(ratodo::layout::progress(some, 26, 10, Glyphs::Ascii, t).is_none());
    assert!(ratodo::layout::progress(some, 27, 10, Glyphs::Ascii, t).is_some());
}

#[test]
fn the_bottom_line() {
    let colours = mocha();
    let shown = |notice: &Notice, size, width, height, glyphs| notice_line(notice, size, width, height, glyphs, colours).text;

    assert!(shown(&Notice::Hints, Size::Wide, 60, 20, Glyphs::Unicode).contains("[spc] done"));
    assert!(shown(&Notice::Hints, Size::Wide, 60, 20, Glyphs::Unicode).contains("[a] add"));
    for glyphs in [Glyphs::Unicode, Glyphs::Ascii] {
        let bar = shown(&Notice::Hints, Size::Wide, 60, 20, glyphs);
        assert!(columns(&bar) <= 60, "{} columns: {bar}", columns(&bar));
    }
    assert_eq!(shown(&Notice::Hints, Size::Wide, 60, 9, Glyphs::Unicode), " ?");
    assert!(!shown(&Notice::Hints, Size::Narrow, 40, 20, Glyphs::Unicode).contains("move"));
    for width in 60..=200usize {
        for glyphs in [Glyphs::Unicode, Glyphs::Ascii] {
            let bar = shown(&Notice::Hints, Size::Wide, width, 20, glyphs);
            assert!(columns(&bar) <= width, "{width}: {bar}");
            assert!(bar.contains("[?] keys"), "{width}: {bar}");
            assert!(bar.contains("[q] quit"), "{width}: {bar}");
        }
    }
    let wide = shown(&Notice::Hints, Size::Wide, 80, 20, Glyphs::Unicode);
    for named in ["[spc] done", "[d] cancel", "[p] later"] {
        assert!(wide.contains(named), "{named} is not on the bar: {wide}");
    }
    assert!(!wide.contains("[y] copy"), "{wide}");
    assert!(shown(&Notice::Hints, Size::Wide, 88, 20, Glyphs::Unicode).contains("[y] copy"));
    let sixty = shown(&Notice::Hints, Size::Wide, 60, 20, Glyphs::Unicode);
    assert!(sixty.contains("[spc] done"), "{sixty}");
    assert!(!sixty.contains("[d] cancel"), "{sixty}");
    assert_eq!(shown(&Notice::Said("done: milk".into()), Size::Wide, 60, 20, Glyphs::Unicode), " done: milk");
    assert_eq!(shown(&Notice::Warned("nope".into()), Size::Wide, 60, 20, Glyphs::Unicode), " ⚠ nope");
    assert_eq!(shown(&Notice::Warned("nope".into()), Size::Wide, 60, 20, Glyphs::Ascii), " ! nope");
}

fn typed(text: &str) -> ratodo::ui::Input {
    ratodo::ui::Input::new(text.to_string(), ratodo::ui::Purpose::Add)
}

#[test]
fn the_field_colours_what_the_parser_understood_and_nothing_else() {
    let colours = mocha();
    let input = typed("pay @thu 09:30 #home !high @notaday");
    let (field, _, _, _) = ratodo::layout::input_lines(&input, 60, &[], today(), Glyphs::Unicode, colours);
    let ink = |want: &str| {
        field
            .iter()
            .find(|p| p.text.contains(want))
            .unwrap_or_else(|| panic!("{want} is not its own piece: {field:?}"))
            .ink
    };
    assert_eq!(ink("@thu").fg, Some(colours.accent));
    assert_eq!(ink("09:30").fg, Some(colours.accent));
    assert_eq!(ink("#home").fg, Some(colours.tag));
    assert!(ink("!high").bold);
    let plain = ink("@notaday");
    assert_eq!(plain.fg, Some(colours.foreground));
    assert!(!plain.bold);
}

#[test]
fn colouring_survives_a_line_wider_than_the_field() {
    let mut input = typed("şşşş bir hayli uzun bir cümle @tomorrow #ev burada biter");
    let stops: Vec<usize> = input.text.char_indices().map(|(i, _)| i).chain([input.text.len()]).collect();
    for width in [12, 20, 34, 60] {
        for at in stops.iter().copied() {
            input.at = at;
            let (field, _, _, cursor) = ratodo::layout::input_lines(&input, width, &[], today(), Glyphs::Unicode, mocha());
            let drawn = text_of(&field);
            assert!(columns(&drawn) <= width, "{width}/{at}: {drawn:?}");
            assert!(cursor < width, "{width}/{at}: the caret left the field");
        }
    }
}

#[test]
fn a_long_line_scrolls_to_wherever_the_caret_is() {
    let long = "a very long sentence that will not fit in a narrow pane at all";
    let mut input = typed(long);
    let field = |input: &ratodo::ui::Input| {
        let (field, _, _, at) = ratodo::layout::input_lines(input, 30, &[], today(), Glyphs::Unicode, mocha());
        (text_of(&field), at)
    };
    let (end, at) = field(&input);
    assert!(end.ends_with("at all"), "{end:?}");
    assert_eq!(at, 29, "the caret sits at the end of what is shown");
    input.home();
    let (start, at) = field(&input);
    assert!(start.starts_with(" ADD ▏a very long"), "{start:?}");
    assert!(!start.contains("at all"), "the caret scrolled off: {start:?}");
    assert_eq!(at, columns(" ADD ▏"));
}

#[test]
fn the_preview_is_coloured_field_by_field() {
    let colours = mocha();
    let input = typed("call the accountant @thu #home !high");
    let (_, _, preview, _) = ratodo::layout::input_lines(&input, 60, &[], today(), Glyphs::Unicode, colours);
    let ink = |want: &str| {
        preview
            .iter()
            .find(|p| p.text.contains(want))
            .unwrap_or_else(|| panic!("{want} is not in the preview: {preview:?}"))
            .ink
    };
    assert_eq!(ink("due Thursday").fg, Some(colours.accent));
    assert_eq!(ink("#home").fg, Some(colours.tag));
    assert_eq!(ink("!high").fg, Some(colours.priority));
    assert!(ink("!high").bold, "the priority lost its weight: {preview:?}");
    assert_eq!(ink("│").fg, Some(colours.border));
    let mut seen: Vec<_> = preview.iter().map(|p| p.ink.fg).collect();
    seen.sort_by_key(|c| format!("{c:?}"));
    seen.dedup();
    assert!(seen.len() >= 3, "the preview came out in one colour again: {preview:?}");
}

#[test]
fn an_empty_box_names_the_four_sigils() {
    let line = |several: bool| {
        let lists: Vec<String> = if several {
            vec!["todo.md".to_string(), "work.md".to_string()]
        } else {
            vec!["todo.md".to_string()]
        };
        let (_, _, preview, _) = ratodo::layout::input_lines(&typed(""), 28, &lists, today(), Glyphs::Unicode, mocha());
        text_of(&preview)
    };
    let hint = line(true);
    assert_eq!(hint.trim(), "@thu #home !high $list", "{hint:?}");
    assert!(columns(&hint) <= 28, "{hint:?} does not fit the pane");
    let hint = line(false);
    assert_eq!(hint.trim(), "@thu #home !high", "{hint:?}");
    for (text, expected) in [("buy milk @thu", "due"), ("buy milk", "")] {
        let (_, _, preview, _) = ratodo::layout::input_lines(&typed(text), 60, &two_lists(), today(), Glyphs::Unicode, mocha());
        let shown = text_of(&preview);
        assert!(!shown.contains('@'), "{text:?} → {shown:?}");
        assert!(shown.contains(expected), "{text:?} → {shown:?}");
    }
}

#[test]
fn putting_off_previews_the_day_it_lands_on() {
    let input = Input::new("3d".to_string(), Purpose::Postpone("- [ ] a".to_string()));
    let (field, rule, preview, _) = ratodo::layout::input_lines(&input, 40, &[], today(), Glyphs::Ascii, mocha());
    assert_eq!(text_of(&field), " PUT OFF |3d");
    assert_eq!(field.last().unwrap().ink.fg, Some(mocha().accent));
    assert_eq!(rule.text, "-".repeat(40));
    assert!(text_of(&preview).starts_with("      "));
    assert_eq!(preview[1].ink.fg, Some(mocha().accent));
    let unsure = Input::new("3x".to_string(), Purpose::Postpone("- [ ] a".to_string()));
    let (field, _, preview, _) = ratodo::layout::input_lines(&unsure, 40, &[], today(), Glyphs::Ascii, mocha());
    assert_eq!(field.last().unwrap().ink.fg, Some(mocha().foreground));
    assert_eq!(text_of(&preview), "      how long?  2   3d   1w   fri");
}

fn empty_texts(width: u16, height: u16, path: &str) -> (Vec<String>, bool, Option<u16>) {
    let laid = empty_lines(width, height, path, Glyphs::Unicode, mocha());
    (laid.rows.into_iter().map(|p| p.text).collect(), laid.welcome, laid.example)
}

#[test]
fn the_empty_list_names_its_file_and_the_two_keys() {
    let (rows, welcome, example) = empty_texts(58, 10, "~/.config/ratodo/todo.md");
    assert!(!welcome);
    assert_eq!(example, None);
    assert_eq!(
        rows,
        vec![
            "",
            "  Nothing here yet.",
            "",
            "  a          add your first task",
            "  e          open ~/.config/ratodo/todo.md in $EDITOR",
            "",
            "  Try:  a  then  buy milk @tomorrow #home",
        ]
    );
}

#[test]
fn a_tall_empty_list_says_hello_and_boxes_the_example() {
    let (rows, welcome, example) = empty_texts(64, 16, "todo.md");
    assert!(welcome);
    assert_eq!(rows[1], "ratodo");
    assert_eq!(rows[2], "a todo list that is still just a file");
    assert_eq!(rows.len(), 9);
    assert_eq!(example, Some(48));
    let (_, _, narrow) = empty_texts(40, 12, "todo.md");
    assert_eq!(narrow, Some(36));
}

#[test]
fn a_long_path_on_the_empty_list_is_shortened() {
    let long = "/home/somebody/very/deeply/nested/dotfiles/config/ratodo/todo.md";
    let (rows, _, _) = empty_texts(48, 10, long);
    assert_eq!(rows[4], "  e          open /home/somebody/v… in $EDITOR");
}

#[test]
fn an_empty_list_teaches_instead_of_apologising() {
    let (rows, _, _) = empty_texts(58, 9, "~/.config/ratodo/todo.md");
    let text = rows.join("\n");
    assert!(text.contains("Nothing here yet"), "{text}");
    assert!(text.contains("~/.config/ratodo/todo.md"), "the path is missing: {text}");
    assert!(text.contains("buy milk @tomorrow #home"), "{text}");
    assert!(text.contains("$EDITOR"), "{text}");
}

#[test]
fn the_first_run_screen_says_hello_in_two_lines_and_no_more() {
    let (tall, welcome, _) = empty_texts(64, 15, "todo.md");
    assert!(welcome);
    assert!(tall.join("\n").contains("a todo list that is still just a file"));
    assert_eq!(tall[0], "");
    assert_eq!(tall[1], "ratodo");
    let (short, welcome, _) = empty_texts(64, 10, "todo.md");
    assert!(!welcome);
    let short = short.join("\n");
    assert!(!short.contains("still just a file"), "{short}");
    assert!(short.contains("Nothing here yet"), "{short}");
}

#[test]
fn the_empty_screen_shows_the_example_in_a_real_input_box() {
    let (rows, _, example) = empty_texts(58, 13, "todo.md");
    assert_eq!(example, Some(48));
    assert!(!rows.join("\n").contains("Try:"));
    let (short, _, example) = empty_texts(58, 9, "todo.md");
    assert_eq!(example, None);
    assert!(short.join("\n").contains("Try:  a  then  buy milk @tomorrow #home"));
}

#[test]
fn a_long_path_on_the_empty_screen_does_not_break_the_frame() {
    let long = "/home/somebody/very/deeply/nested/dotfiles/config/ratodo/todo.md";
    let (rows, _, _) = empty_texts(48, 9, long);
    for row in &rows {
        assert!(columns(row) <= 48, "{row}");
    }
    assert!(rows.iter().any(|r| r.contains('…')), "{rows:?}");
}

#[test]
fn the_pane_is_shared_out_between_frame_band_and_rows() {
    let p = ratodo::layout::panes(80, 24, Glyphs::Unicode);
    assert_eq!((p.reserved, p.framed, p.list_top, p.list_height, p.list_width), (1, true, 6, 14, 78));
    assert_eq!(p.row_width, 71);
    let bare = ratodo::layout::panes(30, 1, Glyphs::Ascii);
    assert_eq!((bare.reserved, bare.framed, bare.list_top, bare.list_height, bare.list_width), (0, false, 0, 1, 30));
    assert_eq!(bare.row_width, 28);
}

fn two_lists() -> Vec<String> {
    vec!["todo.md".to_string(), "work.md".to_string()]
}

#[test]
fn the_preview_says_which_list_a_capture_is_addressed_to() {
    let lists = two_lists();
    let shown = |text: &str, glyphs: Glyphs| {
        let input = Input::new(text.to_string(), Purpose::Add);
        let (_, _, preview, _) = ratodo::layout::input_lines(&input, 60, &lists, today(), glyphs, mocha());
        preview
    };
    let open = shown("call the accountant $work @thu", Glyphs::Unicode);
    let named = open.iter().find(|p| p.text.contains("work.md")).expect("the preview did not say where it goes");
    assert_eq!(named.text, "\u{2192} work.md");
    assert_eq!(named.ink, Ink { fg: Some(mocha().accent), bold: false });
    assert!(text_of(&open).contains("Thursday"), "the address swallowed the fields: {open:?}");

    let ascii = text_of(&shown("call the accountant $work", Glyphs::Ascii));
    assert!(ascii.contains("-> work.md"), "{ascii:?}");
    assert!(ascii.is_ascii(), "{ascii:?}");

    let missing = shown("call the accountant $wrok @thu", Glyphs::Unicode);
    let warned = missing.iter().find(|p| p.text.contains("wrok.md")).expect("the preview stayed quiet about it");
    assert_eq!(warned.text, "no list wrok.md");
    assert_eq!(warned.ink, Ink { fg: Some(mocha().overdue), bold: false });
    assert!(text_of(&missing).contains("Thursday"));

    for half in ["$w", "$wo", "$wor", "$work", "$work.", "$work.m"] {
        let line = text_of(&shown(&format!("call the accountant {half}"), Glyphs::Unicode));
        assert!(!line.contains("no list"), "{half} -> {line:?}");
    }

    for (text, purpose) in [
        ("call the accountant @thu", Purpose::Add),
        ("call the accountant $work", Purpose::Edit("- [ ] call the accountant".to_string())),
    ] {
        let input = Input::new(text.to_string(), purpose);
        let (_, _, preview, _) = ratodo::layout::input_lines(&input, 60, &lists, today(), Glyphs::Unicode, mocha());
        let line = text_of(&preview);
        assert!(!line.contains(".md"), "{text:?} -> {line:?}");
    }
}

#[test]
fn the_bottom_line_says_what_enter_and_esc_do_in_a_box() {
    let hint = |form, field, size| ratodo::layout::open_hint(form, field, size, Glyphs::Unicode, mocha()).text;
    assert_eq!(hint(false, false, Size::Wide), " \u{23ce} save   esc cancel   tab date");
    assert_eq!(hint(false, false, Size::Narrow), " \u{23ce} save   esc cancel");
    assert_eq!(hint(false, true, Size::Wide), " \u{23ce} date   esc back");
    assert_eq!(hint(true, false, Size::Wide), " \u{23ce} create   esc cancel");
    assert_eq!(ratodo::layout::open_hint(true, false, Size::Wide, Glyphs::Ascii, mocha()).text, " ret create   esc cancel");
}

#[test]
fn the_input_box_gives_up_its_rule_before_its_preview() {
    let full = ratodo::layout::input_box_shape(100, 20).unwrap();
    assert_eq!((full.width, full.height, full.ruled), (70, 5, true));
    let short = ratodo::layout::input_box_shape(40, 4).unwrap();
    assert_eq!((short.width, short.height, short.ruled), (36, 4, false));
    assert!(ratodo::layout::input_box_shape(40, 2).is_none());
}
