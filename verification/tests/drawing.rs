use todo_tree::{
    draw_vertical_line, get_def_colour, get_focus_colour, Colour, Settings, State, Todo,
    TodoState, Todos, IO,
};

fn chars(s: &str) -> Vec<char> {
    s.chars().collect()
}

fn text(io: &IO) -> String {
    io.out.iter().collect()
}

fn row(todo: &Todo, here: Vec<usize>, selected: Vec<usize>, width: usize) -> String {
    let mut io = IO::new();
    let mut here = here;
    let normal = vec![Colour::Default];
    let marked = vec![Colour::Negative, Colour::BoldBright];
    todo.draw(&mut io, &mut here, &selected, width, &normal, &marked);
    text(&io)
}

fn details(
    todo: &Todo,
    height: usize,
    state: State,
    scroll: usize,
) -> (String, Option<(usize, usize)>) {
    let mut io = IO::new();
    let cursor = todo.draw_details(&mut io, (11, 1), 5, height, &Settings::new(), &state, scroll);
    (text(&io), cursor)
}

#[test]
fn default_settings() {
    let settings = Settings::new();
    assert_eq!(settings.active_focused, Colour::ForegroundBlack);
    assert_eq!(settings.active_focused_background, Colour::BrightBackgroundWhite);
    assert_eq!(settings.active_focused_modifier, Colour::NoUnderline);
    assert_eq!(settings.active_blured, Colour::BrightForegroundBlack);
    assert_eq!(settings.active_blured_background, Colour::BackgroundWhite);
    assert_eq!(settings.active_blured_modifier, Colour::NoUnderline);
    assert_eq!(settings.focused, Colour::BrightForegroundWhite);
    assert_eq!(settings.blured, Colour::ForegroundWhite);
    assert_eq!(settings.ui_elements, Colour::ForegroundYellow);
    assert_eq!(settings.background, Colour::BackgroundBlack);
    assert_eq!(settings.modifier, Colour::NoUnderline);
}

#[test]
fn colours_depend_on_focus() {
    let settings = Settings::new();
    assert_eq!(
        get_def_colour(&settings, true),
        vec![Colour::BackgroundBlack, Colour::NoUnderline, Colour::BrightForegroundWhite]
    );
    assert_eq!(
        get_def_colour(&settings, false),
        vec![Colour::BackgroundBlack, Colour::NoUnderline, Colour::ForegroundWhite]
    );
    assert_eq!(
        get_focus_colour(&settings, true),
        vec![Colour::ForegroundBlack, Colour::BrightBackgroundWhite, Colour::NoUnderline]
    );
    assert_eq!(
        get_focus_colour(&settings, false),
        vec![Colour::BrightForegroundBlack, Colour::BackgroundWhite, Colour::NoUnderline]
    );
}

#[test]
fn row_of_a_closed_task() {
    let todo = Todo::new(chars("abc"));
    assert_eq!(row(&todo, vec![0], vec![1], 20), "\x1b[0K\u{25b6} [ ] abc\n");
}

#[test]
fn row_shows_state_and_open_mark() {
    let mut todo = Todo::new(chars("abc"));
    todo.open = true;
    todo.state = TodoState::Doing;
    assert_eq!(row(&todo, vec![0], vec![1], 20), "\x1b[0K\u{25bc} [\u{25a0}] abc\n");
    todo.state = TodoState::Done;
    assert_eq!(row(&todo, vec![0], vec![1], 20), "\x1b[0K\u{25bc} [x] abc\n");
}

#[test]
fn selected_row_is_set_off() {
    let todo = Todo::new(chars("abc"));
    assert_eq!(
        row(&todo, vec![2], vec![2], 20),
        "\x1b[0K\x1b[7m\x1b[1m\u{25b6} [ ] abc\n\x1b[0m"
    );
}

#[test]
fn row_is_indented_by_depth() {
    let todo = Todo::new(chars("abc"));
    assert_eq!(row(&todo, vec![0, 4, 1], vec![0], 20), "\x1b[0K    \u{25b6} [ ] abc\n");
}

#[test]
fn long_name_is_cut_with_ellipsis() {
    let todo = Todo::new(chars("abcdef"));
    assert_eq!(row(&todo, vec![0], vec![1], 10), "\x1b[0K\u{25b6} [ ] abc\u{2026}\n");
    assert_eq!(row(&todo, vec![0], vec![1], 12), "\x1b[0K\u{25b6} [ ] abcdef\n");
    assert_eq!(row(&todo, vec![0], vec![1], 11), "\x1b[0K\u{25b6} [ ] abcd\u{2026}\n");
    assert_eq!(row(&todo, vec![0, 0], vec![1], 10), "\x1b[0K  \u{25b6} [ ] a\u{2026}\n");
}

#[test]
fn name_in_pane_without_room() {
    let todo = Todo::new(chars("abc"));
    assert_eq!(row(&todo, vec![0], vec![1], 6), "\x1b[0K\u{25b6} [ ] \u{2026}\n");
    assert_eq!(row(&todo, vec![0], vec![1], 3), "\x1b[0K\u{25b6} [ ] \u{2026}\n");
    let blank = Todo::new(Vec::new());
    assert_eq!(row(&blank, vec![0], vec![1], 3), "\x1b[0K\u{25b6} [ ] \n");
}

#[test]
fn paragraph_breaks_show_as_spaces_in_row() {
    let todo = Todo::new(chars("a\rb"));
    assert_eq!(row(&todo, vec![0], vec![1], 20), "\x1b[0K\u{25b6} [ ] a b\n");
}

#[test]
fn children_are_drawn_only_below_open_task() {
    let mut todo = Todo::new(chars("p"));
    todo.children = vec![Todo::new(chars("c")), Todo::new(chars("d"))];
    assert_eq!(row(&todo, vec![0], vec![9], 20), "\x1b[0K\u{25b6} [ ] p\n");
    todo.open = true;
    assert_eq!(
        row(&todo, vec![0], vec![0, 1], 20),
        "\x1b[0K\u{25bc} [ ] p\n\x1b[0K  \u{25b6} [ ] c\n\x1b[0K\x1b[7m\x1b[1m  \u{25b6} [ ] d\n\x1b[0m"
    );
}

#[test]
fn vertical_line() {
    let mut io = IO::new();
    draw_vertical_line(&mut io, 3, 7, 2, '|');
    assert_eq!(text(&io), "\x1b[7G\x1b[2d|\x1b[7G\x1b[3d|\x1b[7G\x1b[4d|");
    let mut io = IO::new();
    draw_vertical_line(&mut io, 0, 7, 2, '|');
    assert_eq!(text(&io), "");
}

#[test]
fn details_that_fit() {
    let todo = Todo::new(chars("ab"));
    let (out, cursor) = details(&todo, 10, State::Tree, 0);
    assert_eq!(
        out,
        "\x1b[40m\x1b[24m\x1b[37m\x1b[11G\x1b[1dab\x1b[11G\x1b[2d\x1b[33m====\
\x1b[40m\x1b[24m\x1b[37m\x1b[11G\x1b[3d\x1b[11G\x1b[4d\x1b[33m====\x1b[33m"
    );
    assert_eq!(cursor, None);
}

#[test]
fn details_highlight_the_edited_text() {
    let todo = Todo::new(chars("ab"));
    let (out, _) = details(&todo, 10, State::Name(0), 0);
    assert!(out.starts_with("\x1b[40m\x1b[24m\x1b[97m\x1b[11G\x1b[1dab"));
    assert!(out.contains("====\x1b[40m\x1b[24m\x1b[37m\x1b[11G\x1b[3d"));
    let (out, _) = details(&todo, 10, State::Description(0), 0);
    assert!(out.starts_with("\x1b[40m\x1b[24m\x1b[37m\x1b[11G\x1b[1dab"));
    assert!(out.contains("====\x1b[40m\x1b[24m\x1b[97m\x1b[11G\x1b[3d"));
}

#[test]
fn details_cursor_cells() {
    let mut todo = Todo::new(chars("ab"));
    todo.description = chars("abcde");
    assert_eq!(details(&todo, 10, State::Name(0), 0).1, Some((13, 1)));
    assert_eq!(details(&todo, 10, State::Name(2), 0).1, Some((11, 1)));
    assert_eq!(details(&todo, 10, State::Description(0), 0).1, Some((12, 4)));
    assert_eq!(details(&todo, 10, State::Description(1), 0).1, Some((11, 4)));
    assert_eq!(details(&todo, 10, State::Description(5), 0).1, Some((11, 3)));
}

#[test]
fn details_scrolled_with_scroll_bar() {
    let todo = Todo::new(chars("ab"));
    let colours = "\x1b[40m\x1b[24m\x1b[37m";
    let track = "\x1b[15G\x1b[1d\u{2551}\x1b[15G\x1b[2d\u{2551}";
    let (out, _) = details(&todo, 2, State::Tree, 0);
    assert_eq!(
        out,
        format!(
            "{colours}\x1b[11G\x1b[1dab\x1b[11G\x1b[2d\x1b[33m===={colours}\x1b[33m{track}\x1b[15G\x1b[1d\u{2588}"
        )
    );
    let (out, _) = details(&todo, 2, State::Tree, 1);
    assert_eq!(
        out,
        format!(
            "{colours}\x1b[11G\x1b[1d\x1b[33m===={colours}\x1b[11G\x1b[2d\x1b[33m{track}\x1b[15G\x1b[2d\u{2588}"
        )
    );
    let (out, _) = details(&todo, 2, State::Tree, 2);
    assert_eq!(
        out,
        format!(
            "{colours}{colours}\x1b[11G\x1b[1d\x1b[11G\x1b[2d\x1b[33m====\x1b[33m{track}\x1b[15G\x1b[2d\u{2588}"
        )
    );
}

#[test]
fn thumb_scrolled_past_the_end_is_drawn_below_the_pane() {
    let todo = Todo::new(chars("ab"));
    let colours = "\x1b[40m\x1b[24m\x1b[37m";
    let track = "\x1b[15G\x1b[1d\u{2551}\x1b[15G\x1b[2d\u{2551}";
    let (out, _) = details(&todo, 2, State::Tree, 5);
    assert_eq!(out, format!("{colours}{colours}\x1b[33m{track}\x1b[15G\x1b[4d\u{2588}"));
    let (out, _) = details(&todo, 2, State::Tree, 4);
    assert_eq!(out, format!("{colours}{colours}\x1b[33m{track}\x1b[15G\x1b[3d\u{2588}"));
}

#[test]
fn thumb_of_several_cells_keeps_its_height_when_scrolled_past_the_end() {
    let mut todo = Todo::new(chars(""));
    todo.description = chars("a\rb\rc\rd");
    let (out, _) = details(&todo, 6, State::Tree, 3);
    assert_eq!(out.matches('\u{2588}').count(), 5);
    assert!(out.ends_with(
        "\x1b[15G\x1b[4d\u{2588}\x1b[15G\x1b[5d\u{2588}\x1b[15G\x1b[6d\u{2588}\
\x1b[15G\x1b[7d\u{2588}\x1b[15G\x1b[8d\u{2588}"
    ));
}

#[test]
fn details_fit_is_tested_before_drawing() {
    let todo = Todo::new(chars("ab"));
    assert!(todo.fits_details((11, 1), 5, 2, 5));
    assert!(todo.fits_details((11, 1), 5, 10, usize::MAX));
    assert!(!todo.fits_details((11, 1), 1, 10, 0));
    assert!(!todo.fits_details((usize::MAX - 3, 1), 5, 10, 0));
    assert!(!todo.fits_details((11, usize::MAX - 3), 5, 10, 0));
    assert!(!todo.fits_details((11, 1), 5, usize::MAX, 0));
    assert!(todo.fits_details((11, 1), 5, 2, usize::MAX));
    assert!(todo.fits_details((11, 1), 5, 3, usize::MAX - 3));
    assert!(!todo.fits_details((11, 1), 5, 3, usize::MAX - 2));
    assert!(!todo.fits_details((11, 1), 5, 3, usize::MAX));
}

#[test]
fn screen_fit_is_tested_before_drawing() {
    let mut todos = Todos::new(vec![], vec![], Settings::new());
    assert!(todos.fits_screen((20, 2)));
    assert!(todos.fits_screen((9, usize::MAX)));
    assert!(!todos.fits_screen((20, usize::MAX)));
    todos.scroll_ofset = usize::MAX;
    assert!(todos.fits_screen((20, 2)));
    assert!(!todos.fits_screen((20, 4)));
    assert!(todos.fits_screen((20, 50)));
    todos.selected = vec![4];
    assert!(!todos.fits_screen((20, 50)));
}

#[test]
fn thumb_height_is_rounded() {
    let mut todo = Todo::new(chars(""));
    todo.description = chars("a\rb\rc\rd");
    let count = |out: &str| out.matches('\u{2588}').count();
    assert_eq!(count(&details(&todo, 6, State::Tree, 0).0), 5);
    assert_eq!(count(&details(&todo, 5, State::Tree, 0).0), 4);
    assert_eq!(count(&details(&todo, 3, State::Tree, 0).0), 1);
    assert_eq!(count(&details(&todo, 2, State::Tree, 0).0), 1);
    assert_eq!(count(&details(&todo, 1, State::Tree, 0).0), 0);
    assert_eq!(count(&details(&todo, 7, State::Tree, 0).0), 0);
}

#[test]
fn narrow_screen_is_not_drawn() {
    let todos = Todos::new(vec![], vec![], Settings::new());
    let mut io = IO::new();
    assert!(!todos.draw(&mut io, (9, 20)));
    assert!(io.out.is_empty());
    assert!(todos.draw(&mut io, (10, 20)));
    assert!(!io.out.is_empty());
}

#[test]
fn whole_screen() {
    let todos = Todos::new(vec![], vec![], Settings::new());
    let mut io = IO::new();
    assert!(todos.draw(&mut io, (20, 2)));
    let focused = "\x1b[40m\x1b[24m\x1b[97m";
    let blurred = "\x1b[40m\x1b[24m\x1b[37m";
    let expected = format!(
        "\x1b[1G\x1b[1d{focused}\x1b[0K\x1b[30m\x1b[107m\x1b[24m\u{25b6} [ ] Ad\u{2026}\n{focused}\
\x1b[0J{focused}\x1b[33m\x1b[10G\x1b[1d\u{2502}\x1b[10G\x1b[2d\u{2502}\
{blurred}\x1b[11G\x1b[1dAdd Todos\x1b[11G\x1b[2d{blurred}\x1b[33m\
\x1b[20G\x1b[1d\u{2551}\x1b[20G\x1b[2d\u{2551}\x1b[20G\x1b[1d\u{2588}\x1b[?25l"
    );
    assert_eq!(text(&io), expected);
}

#[test]
fn screen_places_cursor_while_editing() {
    let mut todos = Todos::new(vec![Todo::new(chars("abc"))], vec![0], Settings::new());
    todos.state = State::Name(1);
    let mut io = IO::new();
    assert!(todos.draw(&mut io, (20, 10)));
    assert!(text(&io).ends_with("\x1b[?25h\x1b[13G\x1b[1d"));
}
