use catr::config::ArgSwitch;
use catr::render::{caret_symbol, get_content, line_number_prefix, ScanState};

fn render(input: &[u8], sw: ArgSwitch) -> String {
    get_content(input, &sw)
}

fn switches() -> ArgSwitch {
    ArgSwitch::new()
}

#[test]
fn number_numbers_every_line() {
    let mut sw = switches();
    sw.number = true;
    assert_eq!(render(b"a\nb\n", sw), "     1  a\n     2  b\n");
}

#[test]
fn number_numbers_blank_lines_too() {
    let mut sw = switches();
    sw.number = true;
    assert_eq!(render(b"a\n\nb\n", sw), "     1  a\n     2  \n     3  b\n");
}

#[test]
fn squeeze_leading_blank_run() {
    let mut sw = switches();
    sw.squeeze_blank = true;
    assert_eq!(render(b"\n\n\n\nfoo\n", sw), "\nfoo\n");
}

#[test]
fn squeeze_inner_blank_run() {
    let mut sw = switches();
    sw.squeeze_blank = true;
    assert_eq!(render(b"a\n\n\n\nb\n", sw), "a\n\nb\n");
    assert_eq!(render(b"a\n\nb\n", sw), "a\n\nb\n");
}

#[test]
fn squeeze_never_leaves_three_newlines() {
    let mut sw = switches();
    sw.squeeze_blank = true;
    let out = render(b"x\n\n\n\n\n\ny\n\n\n", sw);
    assert!(!out.contains("\n\n\n"));
    assert_eq!(out, "x\n\ny\n\n");
}

#[test]
fn show_tabs_renders_caret_i() {
    let mut sw = switches();
    sw.show_tabs = true;
    assert_eq!(render(b"a\tb\n", sw), "a^Ib\n");
}

#[test]
fn tab_stays_bare_without_show_tabs() {
    assert_eq!(render(b"a\tb\n", switches()), "a\tb\n");
    let mut sw = switches();
    sw.number = true;
    assert_eq!(render(b"\tx\n", sw), "     1  \tx\n");
}

#[test]
fn show_ends_marks_each_newline() {
    let mut sw = switches();
    sw.show_ends = true;
    assert_eq!(render(b"a\n\nb\n", sw), "a$\n$\nb$\n");
}

#[test]
fn no_dollar_without_show_ends() {
    let out = render(b"a\n\nb\n", switches());
    assert!(!out.contains('$'));
}

#[test]
fn nonblank_skips_blank_lines() {
    let mut sw = switches();
    sw.number_nonblank = true;
    assert_eq!(render(b"a\n\nb\n", sw), "     1  a\n\n     2  b\n");
}

#[test]
fn nonblank_wins_over_number() {
    let mut both = switches();
    both.number_nonblank = true;
    both.number = true;
    let mut only = switches();
    only.number_nonblank = true;
    let input = b"one\n\n\ntwo\nthree\n\n";
    assert_eq!(render(input, both), render(input, only));
    assert_eq!(render(input, both), "     1  one\n\n\n     2  two\n     3  three\n\n");
}

#[test]
fn plain_config_keeps_every_byte() {
    let input: Vec<u8> = (0..=255u8).collect();
    let expected: String = input.iter().map(|b| *b as char).collect();
    let out = render(&input, switches());
    assert_eq!(out, expected);
    assert_eq!(out.chars().count(), 256);
}

#[test]
fn plain_text_is_unchanged() {
    assert_eq!(render(b"hello world", switches()), "hello world");
    assert_eq!(render(b"", switches()), "");
}

#[test]
fn show_nonprinting_caret_table() {
    let mut sw = switches();
    sw.show_nonprinting = true;
    assert_eq!(render(&[0], sw), "^@");
    assert_eq!(render(&[1], sw), "^A");
    assert_eq!(render(&[26], sw), "^Z");
    assert_eq!(render(&[27, 28, 29, 30, 31], sw), "^[^\\^]^^^_");
    assert_eq!(render(&[127], sw), "^?");
    assert_eq!(render(b"a\tb\n", sw), "a^Ib^J");
    assert_eq!(render(&[200], sw), "\u{c8}");
}

#[test]
fn caret_symbols() {
    assert_eq!(caret_symbol(0), '@');
    assert_eq!(caret_symbol(9), 'I');
    assert_eq!(caret_symbol(10), 'J');
    assert_eq!(caret_symbol(31), '_');
    assert_eq!(caret_symbol(127), '?');
}

#[test]
fn line_number_prefix_width() {
    assert_eq!(line_number_prefix(1), "     1  ");
    assert_eq!(line_number_prefix(42), "    42  ");
    assert_eq!(line_number_prefix(0), "     0  ");
    assert_eq!(line_number_prefix(123456), "123456  ");
    assert_eq!(line_number_prefix(1234567), "1234567  ");
}

#[test]
fn show_all_combines_options() {
    let mut sw = switches();
    sw.show_ends = true;
    sw.show_tabs = true;
    sw.show_nonprinting = true;
    assert_eq!(render(b"a\tb\r\n", sw), "a^Ib^M^J");
}

#[test]
fn scan_state_steps_one_byte() {
    let mut sw = switches();
    sw.number = true;
    let mut state = ScanState::new();
    let mut out = String::new();
    state.step(&sw, b'x', &mut out);
    assert_eq!(out, "     1  x");
    assert_eq!(state.line_number, 2);
    assert_eq!(state.prev_char, b'x');
    assert_eq!(state.prev_prev_char, b'\n');
    state.step(&sw, b'\n', &mut out);
    state.step(&sw, b'\n', &mut out);
    assert_eq!(out, "     1  x\n     2  \n");
}
