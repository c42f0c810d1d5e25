use todo_tree::term::push_decimal;
use todo_tree::{getch, ClearType, Colour, ControlChar, TermChar, IO};

fn text(io: &IO) -> String {
    io.out.iter().collect()
}

fn decimal(n: usize) -> String {
    let mut out = Vec::new();
    push_decimal(&mut out, n);
    out.into_iter().collect()
}

#[test]
fn new_buffer_is_empty() {
    assert!(IO::new().out.is_empty());
}

#[test]
fn decimal_digits() {
    assert_eq!(decimal(0), "0");
    assert_eq!(decimal(7), "7");
    assert_eq!(decimal(10), "10");
    assert_eq!(decimal(107), "107");
    assert_eq!(decimal(9876543210), "9876543210");
}

#[test]
fn move_cursor_sequence() {
    let mut io = IO::new();
    io.move_cur(12, 3);
    assert_eq!(text(&io), "\x1b[12G\x1b[3d");
    io.move_cur(0, 100);
    assert_eq!(text(&io), "\x1b[12G\x1b[3d\x1b[0G\x1b[100d");
}

#[test]
fn colour_sequences() {
    let yellow: String = IO::get_colour(Colour::ForegroundYellow).into_iter().collect();
    assert_eq!(yellow, "\x1b[33m");
    let mut io = IO::new();
    io.set_colour(Colour::Default);
    io.set_colour(Colour::NoBoldBright);
    io.set_colour(Colour::BrightBackgroundWhite);
    assert_eq!(text(&io), "\x1b[0m\x1b[22m\x1b[107m");
}

#[test]
fn colour_codes() {
    assert_eq!(Colour::Default.code(), 0);
    assert_eq!(Colour::BoldBright.code(), 1);
    assert_eq!(Colour::Underline.code(), 4);
    assert_eq!(Colour::Negative.code(), 7);
    assert_eq!(Colour::NoUnderline.code(), 24);
    assert_eq!(Colour::Positive.code(), 27);
    assert_eq!(Colour::ForegroundBlack.code(), 30);
    assert_eq!(Colour::ForegroundDefault.code(), 39);
    assert_eq!(Colour::BackgroundBlack.code(), 40);
    assert_eq!(Colour::BackgroundDefault.code(), 49);
    assert_eq!(Colour::BrightForegroundBlack.code(), 90);
    assert_eq!(Colour::BrightForegroundWhite.code(), 97);
    assert_eq!(Colour::BrightBackgroundBlack.code(), 100);
    assert_eq!(Colour::BrightBackgroundWhite.code(), 107);
}

#[test]
fn clear_sequences() {
    let mut io = IO::new();
    io.clear_display(ClearType::FromCur);
    io.clear_display(ClearType::ToCur);
    io.clear_display(ClearType::All);
    io.clear_line(ClearType::FromCur);
    io.clear_line(ClearType::ToCur);
    io.clear_line(ClearType::All);
    assert_eq!(text(&io), "\x1b[0J\x1b[1J\x1b[2J\x1b[0K\x1b[1K\x1b[2K");
}

#[test]
fn cursor_visibility_sequences() {
    let mut io = IO::new();
    io.show_cur();
    io.hide_cur();
    assert_eq!(text(&io), "\x1b[?25h\x1b[?25l");
}

#[test]
fn screen_sequences() {
    let mut io = IO::new();
    io.set_up_screen();
    assert_eq!(text(&io), "\x1b7\x1b[?1049h\x1b[1G\x1b[1d");
    let mut io = IO::new();
    io.restore_screen();
    assert_eq!(text(&io), "\x1b[?1049l\x1b8");
}

#[test]
fn plain_writes_append() {
    let mut io = IO::new();
    io.write("ab\u{2026}");
    io.put('c');
    io.write_chars(&vec!['d', 'e']);
    io.write("");
    assert_eq!(text(&io), "ab\u{2026}cde");
}

#[test]
fn bytes_up_to_limit_are_characters() {
    assert_eq!(getch(97, None), Some(TermChar::Char('a')));
    assert_eq!(getch(0, None), Some(TermChar::Char('\0')));
    assert_eq!(getch(156, None), Some(TermChar::Char('\u{9c}')));
    assert_eq!(getch(97, Some(72)), Some(TermChar::Char('a')));
}

#[test]
fn other_bytes_are_unknown() {
    assert_eq!(getch(157, None), Some(TermChar::Unknown(157)));
    assert_eq!(getch(223, None), Some(TermChar::Unknown(223)));
    assert_eq!(getch(225, None), Some(TermChar::Unknown(225)));
    assert_eq!(getch(255, Some(1)), Some(TermChar::Unknown(255)));
}

#[test]
fn prefix_asks_for_second_byte() {
    assert_eq!(getch(224, None), None);
}

#[test]
fn control_keys_are_decoded() {
    let table = [
        (71, ControlChar::Home),
        (72, ControlChar::Up),
        (73, ControlChar::PgUp),
        (75, ControlChar::Left),
        (77, ControlChar::Right),
        (79, ControlChar::End),
        (80, ControlChar::Down),
        (81, ControlChar::PgDown),
        (82, ControlChar::Insert),
        (83, ControlChar::Delete),
        (141, ControlChar::CtrlUp),
        (145, ControlChar::CtrlDown),
        (115, ControlChar::CtrlLeft),
        (116, ControlChar::CtrlRight),
        (147, ControlChar::CtrlDelete),
        (74, ControlChar::Unknown(74)),
        (0, ControlChar::Unknown(0)),
    ];
    for (byte, key) in table {
        assert_eq!(getch(224, Some(byte)), Some(TermChar::ControlChar(key)));
    }
}
