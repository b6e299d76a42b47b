use ratodo::capture::Part;
use ratodo::date::Date;
use ratodo::ui::Glyphs;
use ratodo::ui::{
    after_date, part_of, set_parts, set_tags, tags_of, Code, Field, Form, Input, Key, Purpose,
    Typed,
};

fn today() -> Date {
    Date::from_ymd(2026, 8, 10).unwrap()
}

fn press(code: Code) -> Key {
    Key::press(code)
}

fn form(text: &str) -> Form {
    let mut form = Form::adding(today(), &[]);
    form.input = Input::new(text.to_string(), Purpose::Add);
    form
}

fn tab(form: &mut Form, times: usize) {
    for _ in 0..times {
        form.press(press(Code::Tab));
    }
}

#[test]
fn every_row_is_a_view_of_the_one_line() {
    let form = form("call the accountant @2026-08-14 09:30 #home #work !high");
    let on = |field: Field| -> Vec<String> {
        form.choices_for(field)
            .into_iter()
            .filter(|(_, chosen)| *chosen)
            .map(|(label, _)| label)
            .collect()
    };

    assert_eq!(on(Field::Due), ["2026-08-14"]);
    assert_eq!(on(Field::Priority), ["high"]);
    assert_eq!(tags_of(&form.input.text, today()), "#home #work");
    assert_eq!(part_of(&form.input.text, today(), Part::Time).as_deref(), Some("09:30"));
}

#[test]
fn choosing_a_radio_replaces_one_word_and_leaves_the_rest_alone() {
    let mut form = form("#ops rotate the keys !high @2026-08-14");
    tab(&mut form, 3);
    assert_eq!(form.focus, Field::Priority);

    form.press(press(Code::Right));
    assert_eq!(form.input.text, "#ops rotate the keys !med @2026-08-14");
    form.press(press(Code::Right));
    assert_eq!(form.input.text, "#ops rotate the keys !low @2026-08-14");
    form.press(press(Code::Right));
    assert_eq!(form.input.text, "#ops rotate the keys @2026-08-14", "clearing takes one adjacent space with it");
}

#[test]
fn a_span_is_replaced_added_or_removed_and_never_smeared() {
    let day = today();
    let line = "rotate #ops the keys !high @2026-08-14";

    assert_eq!(
        set_parts(line, day, &[Part::Priority], Some("!low")),
        "rotate #ops the keys !low @2026-08-14"
    );
    assert_eq!(set_parts(line, day, &[Part::Priority], None), "rotate #ops the keys @2026-08-14");
    assert_eq!(set_parts(line, day, &[Part::Date], None), "rotate #ops the keys !high");
    assert_eq!(set_parts("rotate the keys", day, &[Part::Priority], Some("!med")), "rotate the keys !med");
    assert_eq!(set_parts("", day, &[Part::Date], None), "");
    assert_eq!(set_parts("  ", day, &[Part::Priority], Some("!low")), "!low");
}

#[test]
fn the_tag_field_is_a_set_and_puts_the_hash_back() {
    let day = today();
    assert_eq!(set_tags("buy milk #home #work @2026-08-14", day, "kitchen"), "buy milk @2026-08-14 #kitchen");
    assert_eq!(set_tags("buy milk #home", day, "#a #b"), "buy milk #a #b");
    assert_eq!(set_tags("buy milk #home", day, ""), "buy milk");
}

#[test]
fn typing_a_time_writes_one_word_and_not_one_per_keystroke() {
    let mut form = form("standup @2026-08-12");
    tab(&mut form, 2);
    assert_eq!(form.focus, Field::Time);

    for c in "09:30".chars() {
        form.press(press(Code::Char(c)));
    }
    assert_eq!(form.input.text, "standup @2026-08-12 09:30");

    for _ in 0..5 {
        form.press(press(Code::Backspace));
    }
    assert_eq!(form.input.text, "standup @2026-08-12");
}

#[test]
fn the_time_row_is_not_offered_without_a_date() {
    let mut undated = form("buy milk");
    tab(&mut undated, 2);
    assert_eq!(undated.focus, Field::Priority);

    let mut dated = form("buy milk @2026-08-12");
    tab(&mut dated, 2);
    assert_eq!(dated.focus, Field::Time);
}

#[test]
fn typing_the_syntax_lights_the_radio() {
    let mut form = form("");
    for c in "pay the invoice !high".chars() {
        form.press(press(Code::Char(c)));
    }
    assert_eq!(form.focus, Field::Title, "the keys went to the text");
    assert_eq!(
        form.choices_for(Field::Priority).into_iter().find(|(_, on)| *on).map(|(label, _)| label),
        Some("high".to_string())
    );
}

#[test]
fn the_two_keys_that_end_the_form() {
    let mut form = form("buy milk");
    assert_eq!(form.press(press(Code::Enter)), Typed::Save);
    assert_eq!(form.press(press(Code::Esc)), Typed::Cancel);

    while form.focus != Field::Cancel {
        tab(&mut form, 1);
    }
    assert_eq!(form.press(press(Code::Enter)), Typed::Cancel);
    tab(&mut form, 1);
    assert_eq!(form.focus, Field::Create);
    assert_eq!(form.press(press(Code::Enter)), Typed::Save);
}

#[test]
fn tab_walks_the_fields_and_comes_back_round() {
    let mut form = form("buy milk @2026-08-12");
    let order = form.order();
    for want in order.iter().skip(1).chain(order.iter().take(1)) {
        tab(&mut form, 1);
        assert_eq!(form.focus, *want);
    }
    let back_tab = Key { shift: true, ..press(Code::Tab) };
    form.press(back_tab);
    assert_eq!(form.focus, *order.last().unwrap(), "shift-tab walks back round");
}

#[test]
fn the_form_gives_way_to_the_one_line_box_in_a_small_pane() {
    assert!(Form::fits(40, 15));
    assert!(!Form::fits(39, 15));
    assert!(!Form::fits(40, 14));
}

#[test]
fn the_due_row_offers_today_tomorrow_and_the_date_the_line_has() {
    let f = form("pay @2026-08-11");
    assert_eq!(
        f.choices_for(Field::Due),
        vec![
            ("none".to_string(), false),
            ("today".to_string(), false),
            ("tomorrow".to_string(), true),
            ("pick".to_string(), false),
        ]
    );
    let mut f = form("pay");
    tab(&mut f, 1);
    assert_eq!(f.focus, Field::Due);
    f.press(press(Code::Right));
    assert_eq!(f.input.text, "pay @2026-08-10", "one step right of none is today");
    f.press(press(Code::Right));
    assert_eq!(f.input.text, "pay @2026-08-11");
    f.press(press(Code::Right));
    assert!(f.input.field.is_some(), "pick opens the date field");
    assert_eq!(f.press(press(Code::Esc)), Typed::Ignore, "esc closes the field before the form");
    assert!(f.input.field.is_none());
}

#[test]
fn a_time_goes_straight_after_the_date() {
    assert_eq!(after_date("standup @2026-08-12 #work", today(), "09:30"), "standup @2026-08-12 09:30 #work");
    assert_eq!(after_date("standup", today(), "09:30"), "standup 09:30");
    assert_eq!(after_date("standup @2026-08-12", today(), ""), "standup @2026-08-12");
}

fn form_texts(form: &Form, width: u16, height: u16, glyphs: Glyphs) -> Vec<String> {
    let laid = form.layout(width, height, &[], glyphs, ratodo::theme::mocha());
    laid.rows
        .iter()
        .map(|row| row.iter().map(|p| p.text.as_str()).collect::<String>().trim_end().to_string())
        .collect()
}

#[test]
fn the_form_screen_exactly() {
    let mut form = Form::adding(today(), &[]);
    form.input = Input::new("call the accountant @2026-08-12 #home".into(), Purpose::Add);
    let screen = [
        "│▌│  What needs to be done?                          │ │",
        "│ │  ╭────────────────────────────────────────────╮  │ │",
        "│ │▌ │ call the accountant @2026-08-12 #home      │  │ │",
        "│ │  ╰────────────────────────────────────────────╯  │ │",
        "│ │                                                  │ │",
        "│ │  Due       ○ none  ○ today  ○ tomorrow  ◉ 2026…  │ │",
        "│ │  Time      [                                  ]  │ │",
        "│ │  Priority  ◉ none  ○ high  ○ med  ○ low          │ │",
        "│ │  Tags      [ #home                            ]  │ │",
        "│ │                                                  │ │",
        "│ │  ──────────────────────────────────────────────  │ │",
        "│ │  PREVIEW                                         │ │",
        "│ │  - [ ] call the accountant @2026-08-12 #home     │ │",
        "│ │                                                  │ │",
        "│ │  [ esc cancel ]               [ ⏎ create task ]  │ │",
    ];
    let want: Vec<String> = screen
        .iter()
        .map(|r| r.chars().skip(3).take(50).collect::<String>().trim_end().to_string())
        .collect();
    assert_eq!(form_texts(&form, 56, 18, Glyphs::Unicode), want);

    let laid = form.layout(56, 18, &[], Glyphs::Unicode, ratodo::theme::mocha());
    assert_eq!((laid.width, laid.height), (52, 17));
    assert_eq!(laid.caret.map(|c| c.1), Some(2));
}

#[test]
fn a_short_pane_gives_up_the_blank_rows_from_the_bottom_up() {
    let mut form = Form::adding(today(), &[]);
    form.input = Input::new("call the accountant @2026-08-12 #home".into(), Purpose::Add);
    let tall = form_texts(&form, 56, 18, Glyphs::Unicode);
    let one = form_texts(&form, 56, 15, Glyphs::Unicode);
    assert_eq!(one.len(), tall.len() - 2);
    assert_eq!(one[one.len() - 2], "");
    assert!(one[one.len() - 3].contains("- [ ] call the accountant"));
    assert_eq!(one[4], "  Due       ○ none  ○ today  ○ tomorrow  ◉ 2026…");
    let none = form_texts(&form, 56, 10, Glyphs::Unicode);
    assert_eq!(none.len(), tall.len() - 3);
    assert!(none.iter().all(|r| !r.is_empty()));
    let laid = form.layout(56, 10, &[], Glyphs::Unicode, ratodo::theme::mocha());
    assert_eq!(laid.height, 10);
}

#[test]
fn the_form_lays_out_in_ascii_too() {
    let mut form = Form::adding(today(), &[]);
    form.input = Input::new("call the accountant #home".into(), Purpose::Add);
    let text = form_texts(&form, 64, 18, Glyphs::Ascii).join("\n");
    assert!(text.contains("PREVIEW"), "{text}");
    assert!(text.is_ascii(), "something non-ASCII reached the form: {text}");
    assert!(text.contains("(o) none"), "{text}");
    assert!(text.contains("[ ret create task ]"), "{text}");
}

fn form_with(text: &str, lists: &[&str]) -> Form {
    let names: Vec<String> = lists.iter().map(|s| s.to_string()).collect();
    let mut form = Form::adding(today(), &names);
    form.input = Input::new(text.to_string(), Purpose::Add);
    form
}

#[test]
fn the_list_row_appears_only_when_there_is_a_choice() {
    let one = form_with("buy milk", &["todo.md"]);
    assert!(!one.order().contains(&Field::List));

    let two = form_with("buy milk", &["todo.md", "work.md"]);
    assert!(two.order().contains(&Field::List));

    let mut two = two;
    tab(&mut two, 4);
    assert_eq!(two.focus, Field::List);
    two.press(press(Code::Right));
    assert_eq!(two.input.text, "buy milk $work");
}

#[test]
fn the_list_row_reads_the_dollar_word() {
    let form = form_with("buy milk $work", &["todo.md", "work.md"]);
    assert_eq!(
        form.choices_for(Field::List),
        vec![("todo.md".to_string(), false), ("work.md".to_string(), true)]
    );
    let form = form_with("buy milk", &["todo.md", "work.md"]);
    assert_eq!(
        form.choices_for(Field::List),
        vec![("todo.md".to_string(), true), ("work.md".to_string(), false)]
    );
    let text = form_texts(&form, 64, 20, Glyphs::Unicode).join("\n");
    assert!(text.contains("List      \u{25c9} todo.md  \u{25cb} work.md"), "{text}");
}
