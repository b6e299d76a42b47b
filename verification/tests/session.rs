use ratodo::date::Date;
use ratodo::live::Notice;
use ratodo::session::{Effect, Open, Session};
use ratodo::ui::{Code, Key};

fn today() -> Date {
    Date::from_ymd(2026, 8, 10).unwrap()
}

fn key(code: Code) -> Key {
    Key::press(code)
}

fn typed(s: &mut Session, text: &str) {
    for c in text.chars() {
        assert!(matches!(s.on_key(key(Code::Char(c)), (80, 24), None, &[], today()), Effect::Nothing));
    }
}

#[test]
fn a_opens_the_form_where_it_fits_and_the_box_where_it_does_not() {
    let mut s = Session::new();
    s.on_key(key(Code::Char('a')), (80, 24), None, &[], today());
    assert!(matches!(s.open, Open::Form(_)));

    let mut s = Session::new();
    s.on_key(key(Code::Char('a')), (80, 15), None, &[], today());
    match &s.open {
        Open::Line(i) => assert_eq!(i.text, " @2026-08-10"),
        _ => panic!("the box did not open"),
    }
}

#[test]
fn one_esc_per_thing_that_is_open() {
    let mut s = Session::new();
    s.on_key(key(Code::Char('o')), (80, 24), None, &[], today());
    typed(&mut s, "water the plants");
    s.on_key(key(Code::Tab), (80, 24), None, &[], today());
    match &s.open {
        Open::Line(i) => assert!(i.field.is_some()),
        _ => panic!("the box closed"),
    }
    s.on_key(key(Code::Esc), (80, 24), None, &[], today());
    match &s.open {
        Open::Line(i) => {
            assert!(i.field.is_none());
            assert_eq!(i.text, "water the plants @2026-08-10");
        }
        _ => panic!("esc closed the box before the field"),
    }
    s.on_key(key(Code::Esc), (80, 24), None, &[], today());
    assert!(matches!(s.open, Open::Nothing));
    assert_eq!(s.notice, Notice::Hints);
}

#[test]
fn enter_saves_and_a_refusal_keeps_the_line() {
    let mut s = Session::new();
    s.on_key(key(Code::Char('o')), (80, 24), None, &[], today());
    typed(&mut s, "milk ");
    assert!(matches!(s.on_key(key(Code::Enter), (80, 24), None, &[], today()), Effect::Save));
    assert_eq!(s.line().map(|i| i.text.clone()), Some("milk  @2026-08-10".to_string()));
    s.answered(Notice::Warned("changed on disk".to_string()));
    assert!(matches!(s.open, Open::Line(_)));
    s.answered(Notice::Said("added: milk".to_string()));
    assert!(matches!(s.open, Open::Nothing));
    assert_eq!(s.notice, Notice::Said("added: milk".to_string()));
}

#[test]
fn the_list_keys_ask_for_their_work() {
    let mut s = Session::new();
    assert!(matches!(s.on_key(key(Code::Char('j')), (80, 24), None, &[], today()), Effect::Move(1)));
    assert!(matches!(s.on_key(key(Code::Char(' ')), (80, 24), None, &[], today()), Effect::Restate(false)));
    assert!(matches!(s.on_key(key(Code::Char('d')), (80, 24), None, &[], today()), Effect::Restate(true)));
    assert!(matches!(s.on_key(key(Code::Char('q')), (80, 24), None, &[], today()), Effect::Quit));
    s.on_key(key(Code::Enter), (80, 24), None, &[], today());
    assert_eq!(s.notice, Notice::Said("nothing to edit here".to_string()));
    s.on_key(key(Code::Char('?')), (80, 24), None, &[], today());
    assert!(s.helping);
    s.on_key(key(Code::Esc), (80, 24), None, &[], today());
    assert!(!s.helping);
    assert!(matches!(s.open, Open::Nothing));
}
