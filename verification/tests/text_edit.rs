use todo_tree::text::{
    backspace, backspace_word, insert_char, measure_word, move_left, move_right, text_from,
};
use todo_tree::{Settings, State, Todo, Todos};

fn chars(s: &str) -> Vec<char> {
    s.chars().collect()
}

fn word_deleted(text: &str, offset: usize) -> String {
    let mut buffer = chars(text);
    backspace_word(&mut buffer, offset);
    buffer.into_iter().collect()
}

fn editing(name: &str, description: &str, state: State) -> Todos {
    let mut todo = Todo::new(chars(name));
    todo.description = chars(description);
    let mut todos = Todos::new(vec![todo], vec![0], Settings::new());
    todos.state = state;
    todos
}

#[test]
fn insert_goes_in_at_distance_from_end() {
    let mut text = chars("hello");
    insert_char(&mut text, 2, 'X');
    assert_eq!(text, chars("helXlo"));
    insert_char(&mut text, 0, '!');
    assert_eq!(text, chars("helXlo!"));
    insert_char(&mut text, 7, '>');
    assert_eq!(text, chars(">helXlo!"));
}

#[test]
fn insert_counts_characters_not_bytes() {
    let mut text = chars("\u{e9}\u{e9}");
    insert_char(&mut text, 1, 'a');
    assert_eq!(text, chars("\u{e9}a\u{e9}"));
}

#[test]
fn backspace_removes_character_before_cursor() {
    let mut text = chars("hello");
    backspace(&mut text, 2);
    assert_eq!(text, chars("helo"));
    backspace(&mut text, 0);
    assert_eq!(text, chars("hel"));
}

#[test]
fn backspace_at_start_does_nothing() {
    let mut text = chars("abc");
    backspace(&mut text, 3);
    assert_eq!(text, chars("abc"));
    backspace(&mut text, 9);
    assert_eq!(text, chars("abc"));
    let mut empty: Vec<char> = Vec::new();
    backspace(&mut empty, 0);
    assert!(empty.is_empty());
}

#[test]
fn insert_then_backspace_restores_text_at_every_offset() {
    for offset in 0..=5 {
        let mut text = chars("ab cd");
        insert_char(&mut text, offset, 'z');
        assert_eq!(text.len(), 6);
        backspace(&mut text, offset);
        assert_eq!(text, chars("ab cd"));
    }
}

#[test]
fn word_deletion_takes_spaces_and_word() {
    assert_eq!(word_deleted("foo bar  ", 0), "foo ");
    assert_eq!(word_deleted("foo bar", 0), "foo ");
    assert_eq!(word_deleted("foo", 0), "");
    assert_eq!(word_deleted("a b", 1), "b");
    assert_eq!(word_deleted("foo bar baz", 4), "foo  baz");
}

#[test]
fn word_deletion_takes_paragraph_break_alone() {
    assert_eq!(word_deleted("foo\r", 0), "foo");
    assert_eq!(word_deleted("foo \r", 0), "foo ");
}

#[test]
fn word_deletion_stops_at_paragraph_break() {
    assert_eq!(word_deleted("foo\rbar", 0), "foo\r");
    assert_eq!(word_deleted("foo\r  bar ", 0), "foo\r  ");
    assert_eq!(word_deleted("\r  ", 0), "\r");
}

#[test]
fn word_deletion_at_start_does_nothing() {
    assert_eq!(word_deleted("foo bar", 7), "foo bar");
    assert_eq!(word_deleted("", 0), "");
}

#[test]
fn word_span_is_measured() {
    assert_eq!(measure_word(&chars("foo bar  "), 0), 5);
    assert_eq!(measure_word(&chars("foo\r"), 0), 1);
    assert_eq!(measure_word(&chars("foo"), 3), 0);
    assert_eq!(measure_word(&chars("   "), 0), 3);
}

#[test]
fn cursor_steps_are_clamped() {
    assert_eq!(move_left(3, 0), 1);
    assert_eq!(move_left(3, 2), 3);
    assert_eq!(move_left(3, 3), 3);
    assert_eq!(move_left(0, 0), 0);
    assert_eq!(move_right(2), 1);
    assert_eq!(move_right(0), 0);
}

#[test]
fn typing_goes_into_the_edited_text() {
    let mut todos = editing("ab", "cd", State::Name(1));
    todos.try_update('x');
    assert_eq!(todos.data[0].name, chars("axb"));
    assert_eq!(todos.data[0].description, chars("cd"));
    assert_eq!(todos.state, State::Name(1));
    todos.state = State::Description(0);
    todos.try_update('y');
    assert_eq!(todos.data[0].description, chars("cdy"));
    assert_eq!(todos.data[0].name, chars("axb"));
}

#[test]
fn typing_in_tree_mode_does_nothing() {
    let mut todos = editing("ab", "cd", State::Tree);
    todos.try_update('x');
    todos.try_backspace();
    todos.try_backspace_word();
    todos.try_move_curs_left();
    todos.try_move_curs_home();
    assert_eq!(todos, editing("ab", "cd", State::Tree));
}

#[test]
fn editor_backspace_keeps_offset() {
    let mut todos = editing("abc", "", State::Name(1));
    todos.try_backspace();
    assert_eq!(todos.data[0].name, chars("ac"));
    assert_eq!(todos.state, State::Name(1));
    todos.try_backspace();
    todos.try_backspace();
    assert_eq!(todos.data[0].name, chars("c"));
}

#[test]
fn editor_word_backspace() {
    let mut todos = editing("", "one two three", State::Description(6));
    todos.try_backspace_word();
    assert_eq!(todos.data[0].description, chars("one  three"));
    assert_eq!(todos.state, State::Description(6));
}

#[test]
fn editor_cursor_moves() {
    let mut todos = editing("abc", "", State::Name(0));
    todos.try_move_curs_left();
    assert_eq!(todos.state, State::Name(1));
    todos.try_move_curs_home();
    assert_eq!(todos.state, State::Name(3));
    todos.try_move_curs_left();
    assert_eq!(todos.state, State::Name(3));
    todos.try_move_curs_right();
    assert_eq!(todos.state, State::Name(2));
    todos.try_move_curs_end();
    assert_eq!(todos.state, State::Name(0));
    todos.try_move_curs_right();
    assert_eq!(todos.state, State::Name(0));
}

#[test]
fn home_is_the_largest_offset() {
    let mut todos = editing("", "x\u{e9}y", State::Description(0));
    todos.try_move_curs_home();
    assert_eq!(todos.state, State::Description(3));
    todos.try_update('>');
    assert_eq!(todos.data[0].description, chars(">x\u{e9}y"));
}

#[test]
fn mode_cycles_and_enters_at_end_of_text() {
    let mut state = State::Tree;
    state.next();
    assert_eq!(state, State::Name(0));
    state = State::Name(4);
    state.next();
    assert_eq!(state, State::Description(0));
    state = State::Description(2);
    state.next();
    assert_eq!(state, State::Tree);
}

#[test]
fn text_from_str_keeps_every_character() {
    assert_eq!(text_from("a\u{e9}\r b"), vec!['a', '\u{e9}', '\r', ' ', 'b']);
    assert!(text_from("").is_empty());
}

#[test]
fn typed_then_erased_restores_the_editor() {
    for offset in 0..=2 {
        let mut todos = editing("ab", "cd", State::Description(offset));
        todos.try_update('x');
        todos.try_backspace();
        assert_eq!(todos, editing("ab", "cd", State::Description(offset)));
    }
}
