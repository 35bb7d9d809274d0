use rusty_editor::render::{cursor_screen_pos, message_row, render_line, GUTTER_WIDTH};

fn cv(s: &str) -> Vec<char> {
    s.chars().collect()
}

#[test]
fn first_line_renders_with_padded_gutter() {
    let r: String = render_line(0, &cv("ab")).iter().collect();
    assert_eq!(r, "   1 | ab");
}

#[test]
fn four_digit_number_fills_the_gutter() {
    let r: String = render_line(9998, &cv("x")).iter().collect();
    assert_eq!(r, "9999 | x");
}

#[test]
fn longer_numbers_are_not_truncated() {
    let r: String = render_line(9999, &cv("x")).iter().collect();
    assert_eq!(r, "10000 | x");
}

#[test]
fn empty_line_renders_gutter_only() {
    let r: String = render_line(41, &cv("")).iter().collect();
    assert_eq!(r, "  42 | ");
}

#[test]
fn cursor_is_shifted_past_the_gutter() {
    assert_eq!(cursor_screen_pos(2, 1), (2 + GUTTER_WIDTH, 1));
    assert_eq!(cursor_screen_pos(0, 0), (GUTTER_WIDTH, 0));
}

#[test]
fn cursor_position_saturates_at_the_terminal_edge() {
    assert_eq!(cursor_screen_pos(usize::MAX, usize::MAX), (65535, 65535));
}

#[test]
fn message_row_sits_under_the_buffer() {
    assert_eq!(message_row(3), 4);
    assert_eq!(message_row(usize::MAX), 65535);
}
