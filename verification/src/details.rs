//! Drawing the detail pane, with its scroll bar, and the whole screen.

use vstd::prelude::*;
use crate::editor::Editor;
use crate::layout::{
    cursor_cell, get_curs_pos, lemma_wrap_shape, lines_view, wrap, write_str_with_width,
};
use crate::model::{Field, Node, valid_path};
use crate::render::{colours_seq, drawn_forest, drawn_node, set_colours};
use crate::term::{
    ClearType, Colour, IO, clear_display_seq, colour_seq, hide_cur_seq, move_cur_seq,
    show_cur_seq,
};
use crate::todos::{Settings, State, Todos};
use crate::tree::{Todo, forest, get_ptr, resolve};

verus! {

/// The track of the scroll bar.
pub const TRACK_GLYPH: char = '\u{2551}';

/// The thumb of the scroll bar.
pub const THUMB_GLYPH: char = '\u{2588}';

/// The rule between the two panes.
pub const RULE_GLYPH: char = '\u{2502}';

/// The narrowest screen that is drawn on.
pub const MIN_COLUMNS: usize = 10;

/// The colours of text that is not selected, in a pane that has the keys
/// or has not.
pub open spec fn def_colours(settings: Settings, focused: bool) -> Seq<Colour> {
    seq![
        settings.background,
        settings.modifier,
        if focused {
            settings.focused
        } else {
            settings.blured
        },
    ]
}

/// The colours of the selected task, in a pane that has the keys or has
/// not.
pub open spec fn focus_colours(settings: Settings, focused: bool) -> Seq<Colour> {
    if focused {
        seq![
            settings.active_focused,
            settings.active_focused_background,
            settings.active_focused_modifier,
        ]
    } else {
        seq![
            settings.active_blured,
            settings.active_blured_background,
            settings.active_blured_modifier,
        ]
    }
}

/// Whether the cursor is in the text that `field` names.
pub open spec fn edits(cursor: Option<(Field, int)>, field: Field) -> bool {
    match cursor {
        Some((edited, _)) => edited == field,
        None => false,
    }
}

/// A line of the detail pane as it is sent: placed in its row if it lies
/// within the `height` rows from `scroll` on, and left out otherwise.
pub open spec fn shown_line(
    line: Seq<char>,
    index: int,
    start: (int, int),
    scroll: int,
    height: int,
) -> Seq<char> {
    if scroll <= index < scroll + height {
        move_cur_seq(start.0 as nat, (start.1 + index - scroll) as nat) + line
    } else {
        Seq::empty()
    }
}

/// Lines that follow each other from line number `first` on, as they are
/// sent.
pub open spec fn shown_lines(
    lines: Seq<Seq<char>>,
    first: int,
    start: (int, int),
    scroll: int,
    height: int,
) -> Seq<char>
    decreases lines.len(),
{
    if lines.len() == 0 {
        Seq::empty()
    } else {
        shown_lines(lines.drop_last(), first, start, scroll, height) + shown_line(
            lines.last(),
            first + lines.len() - 1,
            start,
            scroll,
            height,
        )
    }
}

/// The rule below a text: `width` signs in the colour of the frame.
pub open spec fn rule_line(colour: Colour, width: int) -> Seq<char> {
    colour_seq(colour) + Seq::new(width as nat, |i: int| '=')
}

/// One character in each of `height` rows of a column, from `row` down.
pub open spec fn column(height: int, col: int, row: int, chr: char) -> Seq<char>
    decreases height,
{
    if height <= 0 {
        Seq::empty()
    } else {
        column(height - 1, col, row, chr) + move_cur_seq(col as nat, (row + height - 1) as nat)
            + seq![chr]
    }
}

/// `a / b` rounded to the nearest whole number, halves upwards.
pub open spec fn round_div(a: int, b: int) -> int {
    a / b + if 2 * (a % b) >= b {
        1int
    } else {
        0int
    }
}

/// The rows that the thumb takes: the square of the pane's height over the
/// height of the content, rounded.
pub open spec fn thumb_height(height: int, content: int) -> int {
    round_div(height * height, content)
}

/// How many rows below the top the thumb starts: the part of the way that
/// has been scrolled, taken of the rows that the thumb can move.
pub open spec fn thumb_top(scroll: int, height: int, content: int) -> int {
    round_div(scroll * (height - thumb_height(height, content)), content - height)
}

/// The scroll bar: a track as high as the pane and on it the thumb,
/// from its top offset down, where the content is higher than the pane;
/// nothing where the content fits.
pub open spec fn scroll_bar(content: int, height: int, scroll: int, col: int, row: int) -> Seq<
    char,
> {
    if content > height {
        column(height, col, row, TRACK_GLYPH) + column(
            thumb_height(height, content),
            col,
            row + thumb_top(scroll, height, content),
            THUMB_GLYPH,
        )
    } else {
        Seq::empty()
    }
}

/// The row of the last cell of the thumb is a `usize`.
pub open spec fn bar_fits(content: int, height: int, scroll: int, row: int) -> bool {
    content > height ==> row + thumb_top(scroll, height, content) + thumb_height(height, content)
        <= usize::MAX
}

/// Whether the detail pane of a task can be drawn from `start` on in
/// `width` columns and `height` rows with `scroll` lines above the first
/// row: the pane leaves a column for text beside the scroll bar, and no
/// cell or line number leaves the range of `usize`.
pub open spec fn details_fit(
    n: Node,
    start: (int, int),
    width: int,
    height: int,
    scroll: int,
) -> bool {
    &&& width >= 2
    &&& start.0 + width <= usize::MAX
    &&& start.1 + height <= usize::MAX
    &&& start.1 + n.name.len() + n.description.len() + 4 <= usize::MAX
    &&& bar_fits(content_height(n, width), height, scroll, start.1)
}

/// How many lines the detail pane has for a task: those of the name and of
/// the description, and a rule below each.
pub open spec fn content_height(n: Node, width: int) -> int {
    (wrap(n.name, width - 1).len() + wrap(n.description, width - 1).len() + 2) as int
}

/// The detail pane of a task, drawn from the cell `start` on in `width`
/// columns, the last of which is kept for the scroll bar, and `height`
/// rows, with `scroll` lines above the first row.
pub open spec fn details(
    n: Node,
    start: (int, int),
    width: int,
    height: int,
    settings: Settings,
    cursor: Option<(Field, int)>,
    scroll: int,
) -> Seq<char> {
    let names = wrap(n.name, width - 1);
    let descriptions = wrap(n.description, width - 1);
    let rule = rule_line(settings.ui_elements, width - 1);
    colours_seq(def_colours(settings, edits(cursor, Field::Name))) + shown_lines(
        names,
        0,
        start,
        scroll,
        height,
    ) + shown_line(rule, names.len() as int, start, scroll, height) + colours_seq(
        def_colours(settings, edits(cursor, Field::Description)),
    ) + shown_lines(descriptions, (names.len() + 1) as int, start, scroll, height) + shown_line(
        rule,
        (names.len() + 1 + descriptions.len()) as int,
        start,
        scroll,
        height,
    ) + colour_seq(settings.ui_elements) + scroll_bar(
        content_height(n, width),
        height,
        scroll,
        start.0 + width - 1,
        start.1,
    )
}

/// The cell of the cursor in the detail pane, if a text is being edited.
pub open spec fn details_cursor(
    n: Node,
    start: (int, int),
    width: int,
    cursor: Option<(Field, int)>,
) -> Option<(int, int)> {
    match cursor {
        None => None,
        Some((Field::Name, offset)) => Some(
            (
                start.0 + cursor_cell(n.name, width - 1, offset).0,
                start.1 + cursor_cell(n.name, width - 1, offset).1,
            ),
        ),
        Some((Field::Description, offset)) => Some(
            (
                start.0 + cursor_cell(n.description, width - 1, offset).0,
                start.1 + wrap(n.name, width - 1).len() + 1 + cursor_cell(
                    n.description,
                    width - 1,
                    offset,
                ).1,
            ),
        ),
    }
}

/// The colours of text that is not selected.
pub fn get_def_colour(settings: &Settings, focused: bool) -> (colours: Vec<Colour>)
    ensures
        colours@ == def_colours(*settings, focused),
{
    let colours: Vec<Colour> = vec![
        settings.background,
        settings.modifier,
        if focused {
            settings.focused
        } else {
            settings.blured
        },
    ];
    assert(colours@ =~= def_colours(*settings, focused));
    colours
}

/// The colours of the selected task.
pub fn get_focus_colour(settings: &Settings, focused: bool) -> (colours: Vec<Colour>)
    ensures
        colours@ == focus_colours(*settings, focused),
{
    let colours: Vec<Colour> = if focused {
        vec![
            settings.active_focused,
            settings.active_focused_background,
            settings.active_focused_modifier,
        ]
    } else {
        vec![
            settings.active_blured,
            settings.active_blured_background,
            settings.active_blured_modifier,
        ]
    };
    assert(colours@ =~= focus_colours(*settings, focused));
    colours
}

/// Draws `chr` in each of `height` rows of column `col`, from `row` down.
pub fn draw_vertical_line(io: &mut IO, height: usize, col: usize, row: usize, chr: char)
    requires
        row + height <= usize::MAX,
    ensures
        final(io).out@ == old(io).out@ + column(height as int, col as int, row as int, chr),
{
    let mut i: usize = 0;
    assert(io.out@ =~= old(io).out@ + column(0, col as int, row as int, chr));
    while i < height
        invariant
            i <= height,
            row + height <= usize::MAX,
            io.out@ == old(io).out@ + column(i as int, col as int, row as int, chr),
        decreases height - i,
    {
        io.move_cur(col, row + i);
        io.put(chr);
        i += 1;
        assert(io.out@ =~= old(io).out@ + column(i as int, col as int, row as int, chr));
    }
}

fn show_line(
    io: &mut IO,
    line: &Vec<char>,
    index: usize,
    start: (usize, usize),
    scroll: usize,
    height: usize,
)
    requires
        start.1 + height <= usize::MAX,
    ensures
        final(io).out@ == old(io).out@ + shown_line(
            line@,
            index as int,
            (start.0 as int, start.1 as int),
            scroll as int,
            height as int,
        ),
{
    if index >= scroll && index - scroll < height {
        io.move_cur(start.0, start.1 + (index - scroll));
        io.write_chars(line);
        assert(io.out@ =~= old(io).out@ + shown_line(
            line@,
            index as int,
            (start.0 as int, start.1 as int),
            scroll as int,
            height as int,
        ));
    } else {
        assert(io.out@ =~= old(io).out@ + shown_line(
            line@,
            index as int,
            (start.0 as int, start.1 as int),
            scroll as int,
            height as int,
        ));
    }
}

fn show_lines(
    io: &mut IO,
    lines: &Vec<Vec<char>>,
    first: usize,
    start: (usize, usize),
    scroll: usize,
    height: usize,
)
    requires
        start.1 + height <= usize::MAX,
        first + lines.len() <= usize::MAX,
    ensures
        final(io).out@ == old(io).out@ + shown_lines(
            lines_view(lines@),
            first as int,
            (start.0 as int, start.1 as int),
            scroll as int,
            height as int,
        ),
{
    let ghost all = lines_view(lines@);
    let ghost origin = (start.0 as int, start.1 as int);
    let mut i: usize = 0;
    assert(all.take(0) =~= Seq::<Seq<char>>::empty());
    assert(io.out@ =~= old(io).out@ + shown_lines(
        all.take(0),
        first as int,
        origin,
        scroll as int,
        height as int,
    ));
    while i < lines.len()
        invariant
            i <= lines.len(),
            start.1 + height <= usize::MAX,
            first + lines.len() <= usize::MAX,
            all == lines_view(lines@),
            origin == (start.0 as int, start.1 as int),
            io.out@ == old(io).out@ + shown_lines(
                all.take(i as int),
                first as int,
                origin,
                scroll as int,
                height as int,
            ),
        decreases lines.len() - i,
    {
        show_line(io, &lines[i], first + i, start, scroll, height);
        proof {
            let next = all.take(i + 1);
            assert(next.drop_last() =~= all.take(i as int));
            assert(next.last() == lines@[i as int]@);
            assert(io.out@ =~= old(io).out@ + shown_lines(
                next,
                first as int,
                origin,
                scroll as int,
                height as int,
            ));
        }
        i += 1;
    }
    assert(all.take(lines.len() as int) =~= all);
}

fn make_rule(colour: Colour, width: usize) -> (rule: Vec<char>)
    ensures
        rule@ == rule_line(colour, width as int),
{
    let mut rule: Vec<char> = IO::get_colour(colour);
    let mut i: usize = 0;
    assert(rule@ =~= colour_seq(colour) + Seq::new(0 as nat, |i: int| '='));
    while i < width
        invariant
            i <= width,
            rule@ == colour_seq(colour) + Seq::new(i as nat, |i: int| '='),
        decreases width - i,
    {
        rule.push('=');
        i += 1;
        assert(rule@ =~= colour_seq(colour) + Seq::new(i as nat, |i: int| '='));
    }
    rule
}

/// Appending in two steps is appending the two together.
proof fn lemma_append(a: Seq<char>, b: Seq<char>, c: Seq<char>)
    ensures
        (a + b) + c == a + (b + c),
{
    assert((a + b) + c =~= a + (b + c));
}

fn rounded(a: u128, b: u128) -> (q: u128)
    requires
        b > 0,
        a < u128::MAX,
    ensures
        q == round_div(a as int, b as int),
{
    let whole: u128 = a / b;
    let rest: u128 = a % b;
    assert(whole <= a) by (nonlinear_arith)
        requires
            whole == a / b,
            b > 0,
    ;
    if rest >= b - rest {
        whole + 1
    } else {
        whole
    }
}

proof fn lemma_product_fits(x: int, y: int)
    requires
        0 <= x <= usize::MAX,
        0 <= y <= usize::MAX,
    ensures
        0 <= x * y < u128::MAX,
{
    assert(0 <= x * y <= 0xffff_ffff_ffff_ffff * 0xffff_ffff_ffff_ffff) by (nonlinear_arith)
        requires
            0 <= x <= 0xffff_ffff_ffff_ffff,
            0 <= y <= 0xffff_ffff_ffff_ffff,
    ;
}

/// The thumb is no higher than the pane.
pub proof fn lemma_thumb_height_bounds(height: int, content: int)
    requires
        0 <= height < content,
    ensures
        0 <= thumb_height(height, content) <= height,
{
    let a = height * height;
    assert(0 <= a / content < height || (height == 0 && a / content == 0)) by (nonlinear_arith)
        requires
            a == height * height,
            0 <= height < content,
    ;
    assert(0 <= a % content) by (nonlinear_arith)
        requires
            content > 0,
    ;
    if height == 0 {
        assert(a == 0);
        assert(a % content == 0) by (nonlinear_arith)
            requires
                a == 0,
                content > 0,
        ;
    }
}

/// The height of the thumb and its top offset.
fn thumb_of(content: usize, height: usize, scroll: usize) -> (thumb: (u128, u128))
    requires
        content > height,
    ensures
        thumb.0 == thumb_height(height as int, content as int),
        thumb.1 == thumb_top(scroll as int, height as int, content as int),
        thumb.0 <= height,
{
    proof {
        lemma_product_fits(height as int, height as int);
        lemma_thumb_height_bounds(height as int, content as int);
    }
    let h: u128 = height as u128;
    let high: u128 = rounded(h * h, content as u128);
    proof {
        lemma_product_fits(scroll as int, height - high);
    }
    let top: u128 = rounded((scroll as u128) * (h - high), (content - height) as u128);
    (high, top)
}

fn bar_fits_in(content: usize, height: usize, scroll: usize, row: usize) -> (fits: bool)
    ensures
        fits == bar_fits(content as int, height as int, scroll as int, row as int),
{
    if content <= height {
        return true;
    }
    let (high, top) = thumb_of(content, height, scroll);
    let limit: u128 = usize::MAX as u128;
    if top > limit {
        false
    } else {
        row as u128 + top + high <= limit
    }
}

fn draw_scroll_bar(
    io: &mut IO,
    content: usize,
    height: usize,
    scroll: usize,
    col: usize,
    row: usize,
)
    requires
        row + height <= usize::MAX,
        bar_fits(content as int, height as int, scroll as int, row as int),
    ensures
        final(io).out@ == old(io).out@ + scroll_bar(
            content as int,
            height as int,
            scroll as int,
            col as int,
            row as int,
        ),
{
    if content > height {
        let ghost s0 = io.out@;
        draw_vertical_line(io, height, col, row, TRACK_GLYPH);
        let (high, top) = thumb_of(content, height, scroll);
        let down: usize = top as usize;
        draw_vertical_line(io, high as usize, col, row + down, THUMB_GLYPH);
        proof {
            lemma_append(
                s0,
                column(height as int, col as int, row as int, TRACK_GLYPH),
                column(high as int, col as int, row + down, THUMB_GLYPH),
            );
        }
    } else {
        assert(io.out@ =~= old(io).out@ + scroll_bar(
            content as int,
            height as int,
            scroll as int,
            col as int,
            row as int,
        ));
    }
}

impl Todo {
    /// Whether the detail pane of the task can be drawn as `draw_details`
    /// asks.
    pub fn fits_details(
        &self,
        start: (usize, usize),
        width: usize,
        height: usize,
        scroll_offset: usize,
    ) -> (fits: bool)
        ensures
            fits == details_fit(
                self.model(),
                (start.0 as int, start.1 as int),
                width as int,
                height as int,
                scroll_offset as int,
            ),
    {
        if width < 2 || start.0 > usize::MAX - width || start.1 > usize::MAX - height {
            return false;
        }
        let limit: u128 = usize::MAX as u128;
        let long: u128 = start.1 as u128 + self.name.len() as u128 + self.description.len() as u128
            + 4;
        if long > limit {
            return false;
        }
        let names = write_str_with_width(&self.name, width - 1);
        let descriptions = write_str_with_width(&self.description, width - 1);
        proof {
            lemma_wrap_shape(self.name@, width - 1);
            lemma_wrap_shape(self.description@, width - 1);
            assert(lines_view(names@).len() == names.len());
            assert(lines_view(descriptions@).len() == descriptions.len());
        }
        bar_fits_in(names.len() + descriptions.len() + 2, height, scroll_offset, start.1)
    }

    /// Draws the name and the description of the task, a rule below
    /// each, and the scroll bar, and returns the cell of the cursor if a
    /// text is being edited.
    pub fn draw_details(
        &self,
        io: &mut IO,
        start: (usize, usize),
        width: usize,
        height: usize,
        settings: &Settings,
        state: &State,
        scroll_offset: usize,
    ) -> (cursor: Option<(usize, usize)>)
        requires
            details_fit(
                self.model(),
                (start.0 as int, start.1 as int),
                width as int,
                height as int,
                scroll_offset as int,
            ),
            match state.cursor() {
                Some((field, offset)) => offset <= self.model().text(field).len(),
                None => true,
            },
        ensures
            final(io).out@ == old(io).out@ + details(
                self.model(),
                (start.0 as int, start.1 as int),
                width as int,
                height as int,
                *settings,
                state.place(),
                scroll_offset as int,
            ),
            match cursor {
                Some(cell) => details_cursor(
                    self.model(),
                    (start.0 as int, start.1 as int),
                    width as int,
                    state.place(),
                ) == Some((cell.0 as int, cell.1 as int)),
                None => details_cursor(
                    self.model(),
                    (start.0 as int, start.1 as int),
                    width as int,
                    state.place(),
                ) is None,
            },
    {
        let inner: usize = width - 1;
        let names = write_str_with_width(&self.name, inner);
        let descriptions = write_str_with_width(&self.description, inner);
        proof {
            lemma_wrap_shape(self.name@, inner as int);
            lemma_wrap_shape(self.description@, inner as int);
            assert(lines_view(names@).len() == names.len());
            assert(lines_view(descriptions@).len() == descriptions.len());
        }
        let rule = make_rule(settings.ui_elements, inner);
        let editing_name: bool = match state {
            State::Name(_) => true,
            _ => false,
        };
        let editing_description: bool = match state {
            State::Description(_) => true,
            _ => false,
        };
        let ghost origin = (start.0 as int, start.1 as int);
        let ghost scroll = scroll_offset as int;
        let ghost tall = height as int;
        let ghost s0 = io.out@;
        let ghost name_lines = wrap(self.name@, inner as int);
        let ghost description_lines = wrap(self.description@, inner as int);
        set_colours(io, &get_def_colour(settings, editing_name));
        let ghost a1 = colours_seq(def_colours(*settings, edits(state.place(), Field::Name)));
        show_lines(io, &names, 0, start, scroll_offset, height);
        let ghost a2 = a1 + shown_lines(name_lines, 0, origin, scroll, tall);
        proof {
            lemma_append(s0, a1, shown_lines(name_lines, 0, origin, scroll, tall));
        }
        show_line(io, &rule, names.len(), start, scroll_offset, height);
        let ghost a3 = a2 + shown_line(rule@, name_lines.len() as int, origin, scroll, tall);
        proof {
            lemma_append(
                s0,
                a2,
                shown_line(rule@, name_lines.len() as int, origin, scroll, tall),
            );
        }
        set_colours(io, &get_def_colour(settings, editing_description));
        let ghost described = colours_seq(
            def_colours(*settings, edits(state.place(), Field::Description)),
        );
        let ghost a4 = a3 + described;
        proof {
            lemma_append(s0, a3, described);
        }
        show_lines(io, &descriptions, names.len() + 1, start, scroll_offset, height);
        let ghost a5 = a4 + shown_lines(
            description_lines,
            (name_lines.len() + 1) as int,
            origin,
            scroll,
            tall,
        );
        proof {
            lemma_append(
                s0,
                a4,
                shown_lines(description_lines, (name_lines.len() + 1) as int, origin, scroll, tall),
            );
        }
        show_line(io, &rule, names.len() + 1 + descriptions.len(), start, scroll_offset, height);
        let ghost a6 = a5 + shown_line(
            rule@,
            (name_lines.len() + 1 + description_lines.len()) as int,
            origin,
            scroll,
            tall,
        );
        proof {
            lemma_append(
                s0,
                a5,
                shown_line(
                    rule@,
                    (name_lines.len() + 1 + description_lines.len()) as int,
                    origin,
                    scroll,
                    tall,
                ),
            );
        }
        io.set_colour(settings.ui_elements);
        let ghost a7 = a6 + colour_seq(settings.ui_elements);
        proof {
            lemma_append(s0, a6, colour_seq(settings.ui_elements));
        }
        draw_scroll_bar(
            io,
            names.len() + descriptions.len() + 2,
            height,
            scroll_offset,
            start.0 + inner,
            start.1,
        );
        let ghost bar = scroll_bar(
            content_height(self.model(), width as int),
            tall,
            scroll,
            origin.0 + width - 1,
            origin.1,
        );
        proof {
            lemma_append(s0, a7, bar);
            assert(a7 + bar == details(
                self.model(),
                origin,
                width as int,
                tall,
                *settings,
                state.place(),
                scroll,
            ));
        }
        match state {
            State::Tree => None,
            State::Name(offset) => Some(get_curs_pos(&self.name, start, inner, *offset)),
            State::Description(offset) => Some(
                get_curs_pos(
                    &self.description,
                    (start.0, start.1 + names.len() + 1),
                    inner,
                    *offset,
                ),
            ),
        }
    }
}

/// The whole screen of `width` columns and `height` rows: the tree in the
/// left half, a rule, the selected task's details in the right half, and
/// the cursor where a text is being edited.
pub open spec fn frame(e: Editor, settings: Settings, width: int, height: int) -> Seq<char> {
    let half = width / 2;
    let normal = def_colours(settings, e.cursor is None);
    move_cur_seq(1, 1) + colours_seq(normal) + drawn_forest(
        e.forest,
        Seq::empty(),
        e.path,
        half - 1,
        normal,
        focus_colours(settings, e.cursor is None),
    ) + clear_display_seq(ClearType::FromCur) + colours_seq(normal) + colour_seq(
        settings.ui_elements,
    ) + column(height, half, 1, RULE_GLYPH) + details(
        e.current(),
        (half + 1, 1),
        half,
        height,
        settings,
        e.cursor,
        e.scroll,
    ) + match details_cursor(e.current(), (half + 1, 1), half, e.cursor) {
        Some(cell) => show_cur_seq() + move_cur_seq(cell.0 as nat, cell.1 as nat),
        None => hide_cur_seq(),
    }
}

impl Todos {
    /// Whether a screen of `size.0` columns and `size.1` rows can be drawn:
    /// it is too narrow to be drawn on at all, or no cell or line number
    /// of the detail pane leaves the range of `usize`.
    pub open spec fn screen_fits(self, size: (usize, usize)) -> bool {
        size.0 >= MIN_COLUMNS ==> details_fit(
            self.current(),
            (size.0 / 2 + 1, 1),
            size.0 as int / 2,
            size.1 as int,
            self.scroll_ofset as int,
        )
    }

    /// Whether the selection addresses a task and the screen can be drawn
    /// as `draw` asks.
    pub fn fits_screen(&self, size: (usize, usize)) -> (fits: bool)
        ensures
            fits == (valid_path(self.forest(), self.path()) && self.screen_fits(size)),
    {
        match resolve(&self.data, &self.selected) {
            Ok(current) => {
                if size.0 < MIN_COLUMNS {
                    true
                } else {
                    let half: usize = size.0 / 2;
                    current.fits_details((half + 1, 1), half, size.1, self.scroll_ofset)
                }
            },
            Err(_) => false,
        }
    }

    /// Draws the whole screen, of `size.0` columns and `size.1` rows.
    /// Returns whether it did: a screen of fewer than `MIN_COLUMNS` columns
    /// is not drawn on.
    pub fn draw(&self, io: &mut IO, size: (usize, usize)) -> (drawn: bool)
        requires
            self.wf(),
            self.screen_fits(size),
        ensures
            drawn == (size.0 >= MIN_COLUMNS),
            final(io).out@ == old(io).out@ + if drawn {
                frame(self.editor(), self.settings, size.0 as int, size.1 as int)
            } else {
                Seq::empty()
            },
    {
        let width: usize = size.0;
        let height: usize = size.1;
        if width < MIN_COLUMNS {
            assert(io.out@ =~= old(io).out@ + Seq::<char>::empty());
            return false;
        }
        let half: usize = width / 2;
        let ghost e = self.editor();
        let ghost tall = height as int;
        let ghost s0 = io.out@;
        io.move_cur(1, 1);
        let browsing: bool = self.state == State::Tree;
        let normal = get_def_colour(&self.settings, browsing);
        let marked = get_focus_colour(&self.settings, browsing);
        set_colours(io, &normal);
        let ghost a1 = move_cur_seq(1, 1) + colours_seq(normal@);
        proof {
            lemma_append(s0, move_cur_seq(1, 1), colours_seq(normal@));
        }
        let ghost s1 = io.out@;
        let mut here: Vec<usize> = Vec::new();
        let mut k: usize = 0;
        assert(e.forest.take(0) =~= Seq::<Node>::empty());
        assert(io.out@ =~= s1 + drawn_forest(
            e.forest.take(0),
            Seq::empty(),
            e.path,
            half - 1,
            normal@,
            marked@,
        ));
        while k < self.data.len()
            invariant
                k <= self.data.len(),
                here@.len() == 0,
                half >= 1,
                e == self.editor(),
                io.out@ == s1 + drawn_forest(
                    e.forest.take(k as int),
                    Seq::empty(),
                    e.path,
                    half - 1,
                    normal@,
                    marked@,
                ),
            decreases self.data.len() - k,
        {
            let ghost done = drawn_forest(
                e.forest.take(k as int),
                Seq::empty(),
                e.path,
                half - 1,
                normal@,
                marked@,
            );
            here.push(k);
            assert(crate::model::path_ints(here@) =~= Seq::<int>::empty().push(k as int));
            self.data[k].draw(io, &mut here, &self.selected, half - 1, &normal, &marked);
            here.pop();
            proof {
                let next = e.forest.take(k + 1);
                assert(next.drop_last() =~= e.forest.take(k as int));
                assert(next.last() == self.data@[k as int].model());
                lemma_append(
                    s1,
                    done,
                    drawn_node(
                        next.last(),
                        Seq::<int>::empty().push(k as int),
                        e.path,
                        half - 1,
                        normal@,
                        marked@,
                    ),
                );
            }
            k += 1;
        }
        assert(e.forest.take(self.data.len() as int) =~= e.forest);
        let ghost rows = drawn_forest(e.forest, Seq::empty(), e.path, half - 1, normal@, marked@);
        let ghost a2 = a1 + rows;
        proof {
            lemma_append(s0, a1, rows);
        }
        io.clear_display(ClearType::FromCur);
        let ghost a3 = a2 + clear_display_seq(ClearType::FromCur);
        proof {
            lemma_append(s0, a2, clear_display_seq(ClearType::FromCur));
        }
        set_colours(io, &normal);
        let ghost a4 = a3 + colours_seq(normal@);
        proof {
            lemma_append(s0, a3, colours_seq(normal@));
        }
        io.set_colour(self.settings.ui_elements);
        let ghost a5 = a4 + colour_seq(self.settings.ui_elements);
        proof {
            lemma_append(s0, a4, colour_seq(self.settings.ui_elements));
        }
        draw_vertical_line(io, height, half, 1, RULE_GLYPH);
        let ghost a6 = a5 + column(tall, half as int, 1, RULE_GLYPH);
        proof {
            lemma_append(s0, a5, column(tall, half as int, 1, RULE_GLYPH));
        }
        let current = get_ptr(&self.data, &self.selected);
        let cursor = current.draw_details(
            io,
            (half + 1, 1),
            half,
            height,
            &self.settings,
            &self.state,
            self.scroll_ofset,
        );
        let ghost pane = details(
            e.current(),
            (half + 1, 1),
            half as int,
            tall,
            self.settings,
            e.cursor,
            e.scroll,
        );
        let ghost a7 = a6 + pane;
        proof {
            lemma_append(s0, a6, pane);
        }
        match cursor {
            None => {
                io.hide_cur();
                proof {
                    lemma_append(s0, a7, hide_cur_seq());
                }
            },
            Some(cell) => {
                let ghost before = io.out@;
                io.show_cur();
                io.move_cur(cell.0, cell.1);
                proof {
                    lemma_append(
                        before,
                        show_cur_seq(),
                        move_cur_seq(cell.0 as nat, cell.1 as nat),
                    );
                    lemma_append(
                        s0,
                        a7,
                        show_cur_seq() + move_cur_seq(cell.0 as nat, cell.1 as nat),
                    );
                }
            },
        }
        true
    }
}

} // verus!
