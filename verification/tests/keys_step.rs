use todo_tree::{todo_step, ControlChar, Settings, State, TermChar, Todo, TodoState, Todos};

fn chars(s: &str) -> Vec<char> {
    s.chars().collect()
}

fn fixture() -> Todos {
    let mut parent = Todo::new(chars("parent"));
    parent.open = true;
    parent.children = vec![Todo::new(chars("child1")), Todo::new(chars("child2"))];
    Todos::new(vec![parent, Todo::new(chars("parent2"))], vec![0], Settings::new())
}

fn press(todos: &mut Todos, chr: char) -> bool {
    todo_step(todos, TermChar::Char(chr))
}

fn control(todos: &mut Todos, key: ControlChar) -> bool {
    todo_step(todos, TermChar::ControlChar(key))
}

#[test]
fn interrupt_and_escape_end_the_session() {
    let mut todos = fixture();
    assert!(!press(&mut todos, '\x03'));
    assert!(!press(&mut todos, '\x1b'));
    todos.state = State::Name(0);
    assert!(!press(&mut todos, '\x1b'));
    todos.state = State::Tree;
    assert_eq!(todos, fixture());
}

#[test]
fn tab_cycles_the_mode() {
    let mut todos = fixture();
    assert!(press(&mut todos, '\t'));
    assert_eq!(todos.state, State::Name(0));
    assert!(press(&mut todos, '\t'));
    assert_eq!(todos.state, State::Description(0));
    assert!(press(&mut todos, '\t'));
    assert_eq!(todos.state, State::Tree);
}

#[test]
fn space_and_return_toggle_status_in_tree() {
    let mut todos = fixture();
    assert!(press(&mut todos, ' '));
    assert_eq!(todos.data[0].state, TodoState::Doing);
    assert!(press(&mut todos, '\r'));
    assert_eq!(todos.data[0].state, TodoState::Done);
    assert_eq!(todos.data[0].name, chars("parent"));
}

#[test]
fn space_and_return_are_typed_while_editing() {
    let mut todos = fixture();
    todos.state = State::Name(0);
    press(&mut todos, ' ');
    press(&mut todos, '\r');
    press(&mut todos, 'x');
    assert_eq!(todos.data[0].name, chars("parent \rx"));
    assert_eq!(todos.data[0].state, TodoState::Todo);
}

#[test]
fn plus_adds_a_root_in_tree_and_is_typed_while_editing() {
    let mut todos = fixture();
    press(&mut todos, '+');
    assert_eq!(todos.data.len(), 3);
    assert_eq!(todos.selected, vec![2]);
    todos.state = State::Description(0);
    press(&mut todos, '+');
    assert_eq!(todos.data.len(), 3);
    assert_eq!(todos.data[2].description, chars("+"));
}

#[test]
fn printable_characters_are_typed_and_others_dropped() {
    let mut todos = fixture();
    todos.state = State::Name(0);
    press(&mut todos, '~');
    press(&mut todos, '!');
    press(&mut todos, '\x01');
    press(&mut todos, '\u{80}');
    press(&mut todos, '\n');
    assert_eq!(todos.data[0].name, chars("parent~!"));
}

#[test]
fn pound_key_types_pound_sign() {
    let mut todos = fixture();
    todos.state = State::Name(0);
    press(&mut todos, '\u{9c}');
    assert_eq!(todos.data[0].name, chars("parent\u{a3}"));
}

#[test]
fn printable_characters_do_nothing_in_tree() {
    let mut todos = fixture();
    press(&mut todos, 'a');
    assert_eq!(todos, fixture());
}

#[test]
fn deletion_keys() {
    let mut todos = fixture();
    todos.data[0].name = chars("one two");
    todos.state = State::Name(0);
    press(&mut todos, '\u{8}');
    assert_eq!(todos.data[0].name, chars("one tw"));
    press(&mut todos, '\u{7f}');
    assert_eq!(todos.data[0].name, chars("one "));
}

#[test]
fn delete_key_removes_character_behind_cursor() {
    let mut todos = fixture();
    todos.state = State::Name(3);
    control(&mut todos, ControlChar::Delete);
    assert_eq!(todos.data[0].name, chars("parnt"));
    assert_eq!(todos.state, State::Name(2));
    todos.state = State::Name(0);
    control(&mut todos, ControlChar::Delete);
    assert_eq!(todos.data[0].name, chars("parnt"));
    assert_eq!(todos.state, State::Name(0));
}

#[test]
fn delete_key_removes_task_in_tree() {
    let mut todos = fixture();
    todos.selected = vec![0, 1];
    control(&mut todos, ControlChar::Delete);
    assert_eq!(todos.selected, vec![0, 0]);
    assert_eq!(todos.data[0].children.len(), 1);
}

#[test]
fn arrows_select_in_tree() {
    let mut todos = fixture();
    control(&mut todos, ControlChar::Down);
    assert_eq!(todos.selected, vec![0, 0]);
    control(&mut todos, ControlChar::Up);
    assert_eq!(todos.selected, vec![0]);
    control(&mut todos, ControlChar::Left);
    assert!(!todos.data[0].open);
    control(&mut todos, ControlChar::Right);
    assert!(todos.data[0].open);
}

#[test]
fn arrows_scroll_and_move_cursor_while_editing() {
    let mut todos = fixture();
    todos.state = State::Name(0);
    control(&mut todos, ControlChar::Up);
    assert_eq!(todos.scroll_ofset, 0);
    control(&mut todos, ControlChar::Down);
    control(&mut todos, ControlChar::Down);
    assert_eq!(todos.scroll_ofset, 2);
    control(&mut todos, ControlChar::Up);
    assert_eq!(todos.scroll_ofset, 1);
    assert_eq!(todos.selected, vec![0]);
    control(&mut todos, ControlChar::Left);
    assert_eq!(todos.state, State::Name(1));
    control(&mut todos, ControlChar::Right);
    assert_eq!(todos.state, State::Name(0));
    control(&mut todos, ControlChar::Home);
    assert_eq!(todos.state, State::Name(6));
    control(&mut todos, ControlChar::End);
    assert_eq!(todos.state, State::Name(0));
}

#[test]
fn scroll_stops_at_largest_offset() {
    let mut todos = fixture();
    todos.state = State::Description(0);
    todos.scroll_ofset = usize::MAX;
    control(&mut todos, ControlChar::Down);
    assert_eq!(todos.scroll_ofset, usize::MAX);
}

#[test]
fn control_arrows_move_the_task() {
    let mut todos = fixture();
    control(&mut todos, ControlChar::CtrlDown);
    assert_eq!(todos.selected, vec![1]);
    assert_eq!(todos.data[0].name, chars("parent2"));
    control(&mut todos, ControlChar::CtrlUp);
    assert_eq!(todos, fixture());
}

#[test]
fn other_keys_do_nothing() {
    let mut todos = fixture();
    for key in [
        ControlChar::PgUp,
        ControlChar::PgDown,
        ControlChar::Insert,
        ControlChar::CtrlLeft,
        ControlChar::CtrlRight,
        ControlChar::CtrlDelete,
        ControlChar::Unknown(9),
        ControlChar::Home,
        ControlChar::End,
    ] {
        assert!(control(&mut todos, key));
    }
    assert!(todo_step(&mut todos, TermChar::Unknown(200)));
    assert_eq!(todos, fixture());
}
