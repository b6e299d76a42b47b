use ratodo::theme::{
    built_in, built_in_names, dracula, mocha, nord, parse, parse_colour, resolve, terminal,
    write_colour, Colour, Theme,
};

fn every_built_in() -> Vec<(&'static str, Theme)> {
    built_in_names().into_iter().map(|n| (n, built_in(n).unwrap())).collect()
}

#[test]
fn every_built_in_leaves_the_background_alone() {
    for (name, theme) in every_built_in() {
        assert_eq!(theme.background, Colour::Reset, "{name} paints over a translucent terminal");
    }
}

#[test]
fn every_built_in_sets_every_other_role() {
    assert_eq!(mocha().pairs().len(), 12);
    for (name, theme) in every_built_in() {
        for (key, colour) in theme.pairs() {
            if key == "background" {
                continue;
            }
            assert_ne!(colour, Colour::Reset, "{name}.{key} was never set");
        }
    }
}

#[test]
fn the_terminal_theme_uses_nothing_but_the_terminals_own_palette() {
    for (key, colour) in built_in("terminal").unwrap().pairs() {
        match colour {
            Colour::Reset => {}
            Colour::Indexed(i) => assert!(i <= 15, "{key} is outside ANSI 0-15"),
            other => panic!("{key} is {other:?}, which needs truecolor"),
        }
    }
    assert_eq!(built_in("terminal"), Some(terminal()));
}

#[test]
fn the_documented_names_are_the_ones_that_resolve() {
    assert_eq!(
        built_in_names(),
        ["catppuccin-mocha", "catppuccin-latte", "gruvbox-dark", "nord", "dracula", "terminal"]
    );
    for (name, _) in every_built_in() {
        assert!(built_in(name).is_some(), "{name}");
    }
    assert!(built_in("solarized").is_none());
    assert!(built_in("").is_none());
}

#[test]
fn the_value_forms() {
    assert_eq!(parse_colour("#cba6f7"), Some(Colour::Rgb(0xcb, 0xa6, 0xf7)));
    assert_eq!(parse_colour("none"), Some(Colour::Reset));
    assert_eq!(parse_colour("default"), Some(Colour::Reset));
    assert_eq!(parse_colour("4"), Some(Colour::Indexed(4)));
    assert_eq!(parse_colour("15"), Some(Colour::Indexed(15)));
    assert_eq!(parse_colour("blue"), Some(Colour::Indexed(4)));
    assert_eq!(parse_colour("bright_black"), Some(Colour::Indexed(8)));
    assert_eq!(parse_colour("  #cba6f7  "), Some(Colour::Rgb(203, 166, 247)));
}

#[test]
fn short_hex_doubles_each_digit() {
    assert_eq!(parse_colour("#c9f"), Some(Colour::Rgb(0xcc, 0x99, 0xff)));
    assert_eq!(parse_colour("#fff"), Some(Colour::Rgb(255, 255, 255)));
    assert_eq!(parse_colour("#000"), Some(Colour::Rgb(0, 0, 0)));
}

#[test]
fn what_is_not_a_colour() {
    for text in [
        "", "#", "#12", "#12345", "#1234567", "#gggggg", "16", "256", "-1", "puce", "bright_puce",
        "bright_", "0x4",
    ] {
        assert_eq!(parse_colour(text), None, "{text:?} was accepted");
    }
}

#[test]
fn a_file_sets_what_it_names_and_leaves_the_rest() {
    let parsed = parse("accent = #ff0000\ntag = blue\n");
    assert!(parsed.warnings.is_empty(), "{:?}", parsed.warnings);
    assert_eq!(parsed.theme.accent, Colour::Rgb(255, 0, 0));
    assert_eq!(parsed.theme.tag, Colour::Indexed(4));
    assert_eq!(parsed.theme.foreground, mocha().foreground);
}

#[test]
fn a_hash_starts_a_comment_only_at_the_start_of_a_line() {
    let parsed = parse("  # a comment\n\naccent = #cba6f7\n");
    assert!(parsed.warnings.is_empty(), "{:?}", parsed.warnings);
    assert_eq!(parsed.theme.accent, Colour::Rgb(0xcb, 0xa6, 0xf7));
}

#[test]
fn a_named_theme_becomes_the_base_and_keys_override_it() {
    let parsed = parse("theme = nord\naccent = #ff0000\n");
    assert!(parsed.warnings.is_empty(), "{:?}", parsed.warnings);
    assert_eq!(parsed.theme.accent, Colour::Rgb(255, 0, 0));
    assert_eq!(parsed.theme.overdue, nord().overdue, "the rest is still nord");
}

#[test]
fn a_named_theme_applies_first_wherever_it_is_written() {
    let top = parse("theme = nord\naccent = #ff0000\n");
    let bottom = parse("accent = #ff0000\ntheme = nord\n");
    assert_eq!(top.theme, bottom.theme);
}

#[test]
fn nothing_in_a_broken_file_stops_the_program() {
    let parsed = parse(
        "theme = nonsense\n\
         accent = puce\n\
         wibble = #ff0000\n\
         a line with no equals sign\n\
         tag = blue\n",
    );

    assert_eq!(parsed.warnings.len(), 4, "{:?}", parsed.warnings);
    for expected in ["no built-in theme", "not a colour", "no theme key", "key = value"] {
        assert!(
            parsed.warnings.iter().any(|w| w.contains(expected)),
            "nothing said {expected:?}: {:?}",
            parsed.warnings
        );
    }

    assert_eq!(parsed.theme.tag, Colour::Indexed(4));
    assert_eq!(parsed.theme.accent, mocha().accent, "a bad value fell back");
}

#[test]
fn a_warning_says_which_line() {
    let parsed = parse("# comment\n\naccent = puce\n");
    assert!(parsed.warnings[0].starts_with("line 3:"), "{:?}", parsed.warnings);
}

#[test]
fn no_file_at_all_is_the_default_theme() {
    let parsed = resolve(None, None, false);
    assert_eq!(parsed.theme, mocha());
    assert!(parsed.warnings.is_empty());
}

#[test]
fn the_flag_outranks_the_file_and_no_colour_outranks_everything() {
    let config = "theme = nord\naccent = #ff0000\n";

    let file_only = resolve(Some(config), None, false);
    assert_eq!(file_only.theme.accent, Colour::Rgb(255, 0, 0));

    let flagged = resolve(Some(config), Some("dracula"), false);
    assert_eq!(flagged.theme, dracula());

    let plain = resolve(Some(config), Some("dracula"), true);
    assert!(plain.theme.pairs().iter().all(|(_, c)| *c == Colour::Reset));
    assert_eq!(plain.theme, Theme::plain());
}

#[test]
fn an_unknown_theme_on_the_command_line_warns_and_keeps_going() {
    let parsed = resolve(None, Some("solarized"), false);
    assert_eq!(parsed.theme, mocha());
    assert_eq!(parsed.warnings.len(), 1);
    assert!(parsed.warnings[0].contains("solarized"));
}

#[test]
fn a_dump_parses_back_to_the_theme_it_came_from() {
    for (name, theme) in every_built_in() {
        let round_tripped = parse(&theme.dump());
        assert!(round_tripped.warnings.is_empty(), "{name}: {:?}", round_tripped.warnings);
        assert_eq!(round_tripped.theme, theme, "{name} did not survive a dump");
    }
}

#[test]
fn an_index_above_the_ansi_range_dumps_as_a_number_and_does_not_return() {
    assert_eq!(write_colour(Colour::Indexed(0)), "black");
    assert_eq!(write_colour(Colour::Indexed(7)), "white");
    assert_eq!(write_colour(Colour::Indexed(8)), "bright_black");
    assert_eq!(write_colour(Colour::Indexed(15)), "bright_white");
    assert_eq!(write_colour(Colour::Indexed(16)), "16");
    assert_eq!(write_colour(Colour::Indexed(200)), "200");

    assert_eq!(parse_colour("16"), None);
    assert_eq!(parse_colour("200"), None);
}

#[test]
fn a_dump_names_every_key_and_reads_as_a_conf_file() {
    let text = mocha().dump();
    for (key, _) in mocha().pairs() {
        assert!(text.contains(&format!("{key:<11}=")), "{key} is missing");
    }
    assert!(text.starts_with("# "), "{text}");
    assert!(text.contains("background = none"), "{text}");
}

#[test]
fn a_hand_made_theme_survives_a_dump_too() {
    let mut theme = Theme::plain();
    theme.accent = Colour::Rgb(0x01, 0xab, 0xff);
    theme.tag = Colour::Indexed(12);
    theme.overdue = Colour::Indexed(1);
    theme.priority = Colour::Rgb(0, 0, 0);
    let back = parse(&theme.dump());
    assert!(back.warnings.is_empty(), "{:?}", back.warnings);
    assert_eq!(back.theme, theme);
}
