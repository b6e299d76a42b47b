use ratodo::agenda::Period;
use ratodo::ui::{action, typing, Action, Code, Fold, Key, Typed};

fn press(code: Code) -> Key {
    Key::press(code)
}

fn with_ctrl(code: Code) -> Key {
    Key { ctrl: true, ..Key::press(code) }
}

fn with_alt(code: Code) -> Key {
    Key { alt: true, ..Key::press(code) }
}

#[test]
fn every_key_the_dumb_list_answers_to() {
    let cases = [
        (Code::Char('q'), Action::Quit),
        (Code::Char('j'), Action::Move(1)),
        (Code::Down, Action::Move(1)),
        (Code::Char('k'), Action::Move(-1)),
        (Code::Up, Action::Move(-1)),
        (Code::Char('g'), Action::Top),
        (Code::Char('G'), Action::Bottom),
    ];
    for (code, want) in cases {
        assert_eq!(action(press(code)), want, "{code:?}");
    }
    assert_eq!(action(with_ctrl(Code::Char('c'))), Action::Quit);
}

#[test]
fn the_keys_of_the_second_screen() {
    assert_eq!(action(press(Code::Char('s'))), Action::Stats);
    assert_eq!(action(press(Code::Char('1'))), Action::Over(Period::Week));
    assert_eq!(action(press(Code::Char('2'))), Action::Over(Period::Month));
    assert_eq!(action(press(Code::Char('3'))), Action::Over(Period::Year));
    assert_eq!(action(press(Code::Esc)), Action::Close);
    assert_eq!(action(press(Code::Char('4'))), Action::Ignore);
    assert_eq!(action(press(Code::Char('S'))), Action::Ignore);
}

#[test]
fn the_control_key_is_not_optional_and_not_ignorable() {
    assert_eq!(action(press(Code::Char('c'))), Action::Ignore);
    assert_eq!(action(with_ctrl(Code::Char('q'))), Action::Ignore);
}

#[test]
fn the_deliberately_unbound_keys_do_nothing() {
    for code in [Code::Char('x'), Code::Char('w'), Code::Char('P')] {
        assert_eq!(action(press(code)), Action::Ignore, "{code:?}");
    }
    assert_eq!(action(press(Code::Esc)), Action::Close);
}

#[test]
fn the_keys_with_nothing_behind_them_still_answer() {
    assert_eq!(action(press(Code::Char(':'))), Action::Say("no command mode - ? for keys"));
    assert_eq!(action(press(Code::Char('/'))), Action::Say("search comes in v2"));
}

#[test]
fn the_help_overlay_opens_and_closes_on_the_keys_that_should() {
    assert_eq!(action(press(Code::Char('?'))), Action::Help);
    assert_eq!(action(press(Code::Esc)), Action::Close);
}

#[test]
fn the_fold_keys() {
    assert_eq!(action(press(Code::Char('h'))), Action::Fold(Fold::Close));
    assert_eq!(action(press(Code::Left)), Action::Fold(Fold::Close));
    assert_eq!(action(press(Code::Char('l'))), Action::Fold(Fold::Open));
    assert_eq!(action(press(Code::Right)), Action::Fold(Fold::Open));
    assert_eq!(action(press(Code::Char('z'))), Action::Fold(Fold::Toggle));
}

#[test]
fn the_keys_that_change_the_list() {
    assert_eq!(action(press(Code::Char(' '))), Action::Toggle);
    assert_eq!(action(press(Code::Char('r'))), Action::Reload);
    assert_eq!(action(press(Code::Char('e'))), Action::Edit);
    assert_eq!(action(with_ctrl(Code::Char('d'))), Action::Move(10));
    assert_eq!(action(with_ctrl(Code::Char('u'))), Action::Move(-10));
    assert_eq!(action(press(Code::Char('d'))), Action::Cancel);
    assert_eq!(action(press(Code::Char('u'))), Action::Undo);
    assert_eq!(action(press(Code::Char('X'))), Action::Delete);
    assert_eq!(action(press(Code::Char('x'))), Action::Ignore);
    assert_eq!(action(press(Code::Char('y'))), Action::Duplicate);
    assert_eq!(action(press(Code::Char('p'))), Action::Postpone);
}

#[test]
fn a_key_being_let_go_is_not_a_second_press() {
    let mut key = press(Code::Char('j'));
    assert_eq!(action(key), Action::Move(1));
    key.release = true;
    assert_eq!(action(key), Action::Ignore);
    key.release = false;
    assert_eq!(action(key), Action::Move(1), "held down still scrolls");
}

#[test]
fn the_keys_that_open_the_input() {
    assert_eq!(action(press(Code::Char('a'))), Action::Add);
    assert_eq!(action(press(Code::Char('o'))), Action::Quick);
    assert_eq!(action(press(Code::Enter)), Action::Change);
}

#[test]
fn ctrl_c_quits_the_list_and_only_cancels_the_input() {
    let ctrl_c = with_ctrl(Code::Char('c'));
    assert_eq!(action(ctrl_c), Action::Quit);
    assert_eq!(typing(ctrl_c), Typed::Cancel);
    assert_eq!(typing(press(Code::Esc)), Typed::Cancel);
}

#[test]
fn the_input_takes_letters_and_leaves_everything_else_alone() {
    for c in ['a', 'q', 'd', 'c', ' ', 'ş', '@'] {
        assert_eq!(typing(press(Code::Char(c))), Typed::Char(c), "{c}");
    }
    assert_eq!(typing(press(Code::Backspace)), Typed::Back);
    assert_eq!(typing(press(Code::Enter)), Typed::Save);
    assert_eq!(typing(press(Code::Left)), Typed::Left);
    assert_eq!(typing(press(Code::Right)), Typed::Right);
    assert_eq!(typing(press(Code::Home)), Typed::Home);
    assert_eq!(typing(press(Code::End)), Typed::End);
    assert_eq!(typing(press(Code::Delete)), Typed::Delete);

    assert_eq!(typing(with_ctrl(Code::Char('d'))), Typed::Ignore);
    assert_eq!(typing(with_alt(Code::Char('d'))), Typed::Ignore);
    let held = Key { release: true, ..press(Code::Char('a')) };
    assert_eq!(typing(held), Typed::Ignore, "a key being let go is not a press");
}

#[test]
fn altgr_is_a_layout_and_not_a_chord() {
    for c in ['#', '@', '$', 'c'] {
        let altgr = Key { ctrl: true, alt: true, ..press(Code::Char(c)) };
        assert_eq!(typing(altgr), Typed::Char(c), "{c}");
    }
    let altgr_c = Key { ctrl: true, alt: true, ..press(Code::Char('c')) };
    assert_eq!(action(altgr_c), Action::Ignore, "altgr-c is not ctrl-c");
}

#[test]
fn tab_and_the_arrows_reach_the_date_field() {
    assert_eq!(typing(press(Code::Tab)), Typed::Field);
    assert_eq!(typing(press(Code::BackTab)), Typed::Field);
    assert_eq!(typing(press(Code::Up)), Typed::Step(1));
    assert_eq!(typing(press(Code::Down)), Typed::Step(-1));
    assert_eq!(typing(press(Code::Other)), Typed::Ignore);
}
