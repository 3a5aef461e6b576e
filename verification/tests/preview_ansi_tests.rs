use herdr_layout::preview_ansi::parse_lines;
use herdr_layout::style::{Color, Modifiers, Style};

fn spans(text: &str) -> Vec<Vec<(String, Style)>> {
    parse_lines(text)
}

fn plain() -> Style {
    Style::plain()
}

fn fg(color: Color) -> Style {
    Style { fg: Some(color), ..Style::plain() }
}

fn bold(style: Style) -> Style {
    Style { modifiers: Modifiers { bold: true, ..style.modifiers }, ..style }
}

#[test]
fn plain_text_is_one_default_span_per_line() {
    assert_eq!(
        spans("one\ntwo"),
        vec![vec![("one".to_owned(), plain())], vec![("two".to_owned(), plain())]]
    );
}

#[test]
fn a_colour_change_mid_line_splits_the_line_and_reset_returns_to_default() {
    let lines = spans("a\x1b[31mb\x1b[0mc");
    assert_eq!(
        lines,
        vec![vec![("a".to_owned(), plain()), ("b".to_owned(), fg(Color::Red)), ("c".to_owned(), plain())]]
    );
}

#[test]
fn attributes_stack_and_colours_survive_a_bold_toggle() {
    let lines = spans("\x1b[1;32mx\x1b[22my");
    assert_eq!(lines[0][0].1, bold(fg(Color::Green)));
    assert_eq!(lines[0][1].1, fg(Color::Green));
}

#[test]
fn extended_colours_parse_and_leave_following_codes_intact() {
    let lines = spans("\x1b[38;5;208;1mx\x1b[48;2;10;20;30my");
    assert_eq!(lines[0][0].1, bold(fg(Color::Indexed(208))));
    assert_eq!(lines[0][1].1, Style { bg: Some(Color::Rgb(10, 20, 30)), ..bold(fg(Color::Indexed(208))) });
}

#[test]
fn non_sgr_sequences_and_carriage_returns_are_dropped() {
    assert_eq!(spans("a\x1b[2Kb\r\x1b[?25lc"), vec![vec![("abc".to_owned(), plain())]]);
}

#[test]
fn a_trailing_newline_does_not_add_an_empty_line() {
    assert_eq!(spans("a\n").len(), 1);
    assert_eq!(spans("a\n\nb").len(), 3);
}

#[test]
fn bright_colours_backgrounds_and_defaults_map_as_sgr_says() {
    let lines = spans("\x1b[91;44mx\x1b[39my\x1b[49;103mz");
    assert_eq!(lines[0][0].1, Style { fg: Some(Color::LightRed), bg: Some(Color::Blue), ..Style::plain() });
    assert_eq!(lines[0][1].1, Style { bg: Some(Color::Blue), ..Style::plain() });
    assert_eq!(lines[0][2].1, Style { bg: Some(Color::LightYellow), ..Style::plain() });
}

#[test]
fn out_of_range_and_malformed_codes_fall_back() {
    let lines = spans("\x1b[38;5;300mx\x1b[;31my\x1b[?5;32mw");
    assert_eq!(lines[0][0].1, fg(Color::Indexed(0)));
    assert_eq!(lines[0][1].1, fg(Color::Red));
    assert_eq!(lines[0][2].1, fg(Color::Green));
}

#[test]
fn a_lone_escape_is_dropped_and_an_unfinished_sequence_swallows_the_rest() {
    assert_eq!(spans("a\x1bb"), vec![vec![("ab".to_owned(), plain())]]);
    assert_eq!(spans("a\x1b[31"), vec![vec![("a".to_owned(), plain())]]);
}
