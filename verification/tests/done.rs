use ratodo::date::Date;
use ratodo::done::{pick_done, sort_texts, DoneMatch};
use ratodo::model::{Doc, State};
use ratodo::parse::parse;
use ratodo::write::render;

fn a_day() -> Date {
    Date::from_ymd(2026, 8, 11).unwrap()
}

fn lists(texts: &[&str]) -> Vec<Doc> {
    texts.iter().map(|t| parse(t)).collect()
}

#[test]
fn done_matches_across_every_list() {
    let work = "- [ ] fix the tap\n- [ ] ship the tag\n";
    let home = "- [ ] fix the tap\n";
    let mut docs = lists(&[work, home]);

    // In both lists: nothing is picked, and both titles are named.
    assert_eq!(
        pick_done(&docs, "fix the tap"),
        DoneMatch::Ambiguous(vec!["fix the tap".to_string(), "fix the tap".to_string()])
    );
    assert_eq!(render(&docs[0]), work);
    assert_eq!(render(&docs[1]), home);

    // In one list only: that line of that list, and the other is untouched.
    let picked = pick_done(&docs, "ship the tag");
    assert_eq!(picked, DoneMatch::Tick(0, 1));
    if let DoneMatch::Tick(which, at) = picked {
        docs[which].task_at_mut(at).unwrap().set_state(State::Done, a_day());
    }
    assert_eq!(render(&docs[0]), "- [ ] fix the tap\n- [x] ship the tag ✓2026-08-11\n");
    assert_eq!(render(&docs[1]), "- [ ] fix the tap\n");
}

#[test]
fn a_hit_in_one_list_and_several_in_another_are_all_named_in_order() {
    let docs = lists(&["- [ ] pay the rent\n", "- [ ] pay the gas\n- [ ] call about the bill\n- [ ] pay a fine\n"]);
    assert_eq!(
        pick_done(&docs, "PAY"),
        DoneMatch::Ambiguous(vec![
            "pay a fine".to_string(),
            "pay the gas".to_string(),
            "pay the rent".to_string(),
        ])
    );
}

#[test]
fn a_lone_hit_in_the_second_list_is_found() {
    let docs = lists(&["- [ ] one\n", "# notes\n\n- [ ] two\n"]);
    assert_eq!(pick_done(&docs, "  two "), DoneMatch::Tick(1, 2));
}

#[test]
fn a_finished_match_is_reported_and_no_match_is_no_match() {
    let docs = lists(&["- [x] close the old PRs\n", "- [ ] other\n"]);
    assert_eq!(pick_done(&docs, "old prs"), DoneMatch::AlreadyDone("close the old PRs".to_string()));
    assert_eq!(pick_done(&docs, "nothing like it"), DoneMatch::NoMatch);
    assert_eq!(pick_done(&docs, "   "), DoneMatch::NoMatch);
}

#[test]
fn an_open_hit_wins_over_a_finished_one_elsewhere() {
    let docs = lists(&["- [x] water the plants\n", "- [ ] water the garden\n"]);
    assert_eq!(pick_done(&docs, "water"), DoneMatch::Tick(1, 0));
}

#[test]
fn no_lists_match_nothing() {
    assert_eq!(pick_done(&[], "anything"), DoneMatch::NoMatch);
}

#[test]
fn texts_sort_by_character_with_a_prefix_first() {
    let sorted = sort_texts(vec![
        "pay the rent".to_string(),
        "Pay".to_string(),
        "pay".to_string(),
        "éclair".to_string(),
        "pay the gas".to_string(),
        "".to_string(),
    ]);
    assert_eq!(sorted, vec!["", "Pay", "pay", "pay the gas", "pay the rent", "éclair"]);
}
