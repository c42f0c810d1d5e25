use todo_tree::{get_curs_pos, write_str_with_width};

fn chars(s: &str) -> Vec<char> {
    s.chars().collect()
}

fn wrapped(text: &str, width: usize) -> Vec<String> {
    write_str_with_width(&chars(text), width)
        .into_iter()
        .map(|line| line.into_iter().collect())
        .collect()
}

fn rejoined(lines: &Vec<String>, width: usize) -> String {
    let mut text = String::new();
    for (i, line) in lines.iter().enumerate() {
        text.push_str(line);
        if line.chars().count() < width && i + 1 < lines.len() {
            text.push('\r');
        }
    }
    text
}

#[test]
fn wrap_cuts_into_full_lines_and_a_shorter_last_one() {
    assert_eq!(wrapped("abcde", 2), vec!["ab", "cd", "e"]);
    assert_eq!(wrapped("abc", 5), vec!["abc"]);
    assert_eq!(wrapped("abcdefg", 3), vec!["abc", "def", "g"]);
}

#[test]
fn wrap_of_exact_multiple_ends_with_empty_line() {
    assert_eq!(wrapped("abcdef", 2), vec!["ab", "cd", "ef", ""]);
    assert_eq!(wrapped("ab", 2), vec!["ab", ""]);
}

#[test]
fn wrap_of_empty_text_is_one_empty_line() {
    assert_eq!(wrapped("", 3), vec![""]);
}

#[test]
fn wrap_starts_a_line_for_each_paragraph() {
    assert_eq!(wrapped("ab\rc", 3), vec!["ab", "c"]);
    assert_eq!(wrapped("a\r\rb", 5), vec!["a", "", "b"]);
    assert_eq!(wrapped("abc\r", 3), vec!["abc", "", ""]);
    assert_eq!(wrapped("\r", 3), vec!["", ""]);
    assert_eq!(wrapped("abcd\ref", 3), vec!["abc", "d", "ef"]);
}

#[test]
fn wrap_with_width_one() {
    assert_eq!(wrapped("ab", 1), vec!["a", "b", ""]);
}

#[test]
fn wrap_keeps_other_characters() {
    assert_eq!(wrapped("a\nb \u{e9}", 10), vec!["a\nb \u{e9}"]);
}

#[test]
fn wrap_round_trip() {
    let texts = ["", "abc", "abcdef", "ab\rcd", "abc\r", "\r\r", "a\rbcdefgh\r\rij", "abcd\r"];
    for text in texts {
        for width in 1..6 {
            let lines = wrapped(text, width);
            assert_eq!(rejoined(&lines, width), text);
            assert_eq!(wrapped(&rejoined(&lines, width), width), lines);
        }
    }
}

#[test]
fn wrap_of_short_paragraphs_is_the_paragraphs() {
    assert_eq!(wrapped("one\rtwo\r\rthree", 6), vec!["one", "two", "", "three"]);
}

#[test]
fn cursor_after_full_line_wraps_below() {
    assert_eq!(get_curs_pos(&chars("ab"), (0, 0), 2, 0), (0, 1));
}

#[test]
fn cursor_is_relative_to_origin() {
    assert_eq!(get_curs_pos(&chars("ab"), (5, 3), 2, 0), (5, 4));
    assert_eq!(get_curs_pos(&chars("ab"), (5, 3), 4, 0), (7, 3));
}

#[test]
fn cursor_follows_offset_from_end() {
    assert_eq!(get_curs_pos(&chars("abc"), (0, 0), 2, 0), (1, 1));
    assert_eq!(get_curs_pos(&chars("abc"), (0, 0), 2, 1), (0, 1));
    assert_eq!(get_curs_pos(&chars("abc"), (0, 0), 2, 2), (1, 0));
    assert_eq!(get_curs_pos(&chars("abc"), (0, 0), 2, 3), (0, 0));
}

#[test]
fn cursor_in_later_paragraph() {
    assert_eq!(get_curs_pos(&chars("ab\rcd"), (0, 0), 5, 0), (2, 1));
    assert_eq!(get_curs_pos(&chars("ab\rcd"), (0, 0), 5, 2), (0, 1));
    assert_eq!(get_curs_pos(&chars("ab\rcd"), (0, 0), 5, 3), (2, 0));
}

#[test]
fn cursor_row_counts_the_lines_that_are_drawn() {
    assert_eq!(get_curs_pos(&chars("ab\rc"), (0, 0), 2, 0), (1, 2));
    assert_eq!(wrapped("ab\rc", 2), vec!["ab", "", "c"]);
}

#[test]
fn cursor_in_empty_text() {
    assert_eq!(get_curs_pos(&chars(""), (3, 4), 7, 0), (3, 4));
}
