//! Drawing the tree pane: one row for each visible task.

use vstd::prelude::*;
use crate::model::{Node, TodoState, path_ints};
use crate::term::{ClearType, Colour, IO, clear_line_seq, colour_seq};
use crate::text::PARAGRAPH_BREAK;
use crate::tree::{Todo, forest, lemma_model_children};

verus! {

/// Marks a task whose children are shown.
pub const OPEN_GLYPH: char = '\u{25bc}';

/// Marks a task whose children are hidden.
pub const CLOSED_GLYPH: char = '\u{25b6}';

/// Marks a task that is being done.
pub const DOING_GLYPH: char = '\u{25a0}';

/// Marks a task that is done.
pub const DONE_GLYPH: char = 'x';

/// Stands for the part of a name that does not fit.
pub const ELLIPSIS: char = '\u{2026}';

/// What a row holds before the name, indentation apart.
pub const ROW_HEAD: usize = 6;

/// The glyph for a task's state.
pub open spec fn state_glyph(state: TodoState) -> char {
    match state {
        TodoState::Todo => ' ',
        TodoState::Doing => DOING_GLYPH,
        TodoState::Done => DONE_GLYPH,
    }
}

/// `n` spaces.
pub open spec fn spaces(n: int) -> Seq<char> {
    Seq::new(
        if n >= 0 {
            n as nat
        } else {
            0
        },
        |i: int| ' ',
    )
}

/// A text on one line: each paragraph break shown as a space.
pub open spec fn flattened(text: Seq<char>) -> Seq<char> {
    Seq::new(
        text.len(),
        |i: int|
            if text[i] == PARAGRAPH_BREAK {
                ' '
            } else {
                text[i]
            },
    )
}

/// A name as it is shown in `room` columns: whole if it fits, else cut so
/// that an ellipsis fits behind it.
pub open spec fn clipped(name: Seq<char>, room: int) -> Seq<char> {
    if name.len() > room {
        flattened(name).take(
            if room >= 1 {
                room - 1
            } else {
                0
            },
        ).push(ELLIPSIS)
    } else {
        flattened(name)
    }
}

/// The text of a task's row at `indent` levels below the roots, in a pane
/// of `width` columns: two spaces for each level, the mark for open or
/// closed, the state in brackets, and the name.
pub open spec fn row_text(n: Node, indent: int, width: int) -> Seq<char> {
    spaces(2 * indent) + seq![
        if n.open {
            OPEN_GLYPH
        } else {
            CLOSED_GLYPH
        },
        ' ',
        '[',
        state_glyph(n.state),
        ']',
        ' ',
    ] + clipped(n.name, name_columns(indent, width)) + seq!['\n']
}

/// The columns that a row at `indent` levels has for the name in a pane of
/// `width` columns.
pub open spec fn name_columns(indent: int, width: int) -> int {
    if width - (ROW_HEAD + 2 * indent) >= 0 {
        width - (ROW_HEAD + 2 * indent)
    } else {
        0
    }
}

/// The sequences that select each of `colours` in turn.
pub open spec fn colours_seq(colours: Seq<Colour>) -> Seq<char>
    decreases colours.len(),
{
    if colours.len() == 0 {
        Seq::empty()
    } else {
        colours_seq(colours.drop_last()) + colour_seq(colours.last())
    }
}

/// The row of the task at `here`: the line is cleared, and the selected
/// task is set off in `marked` colours, after which `normal` returns.
pub open spec fn drawn_row(
    n: Node,
    here: Seq<int>,
    selected: Seq<int>,
    width: int,
    normal: Seq<Colour>,
    marked: Seq<Colour>,
) -> Seq<char> {
    clear_line_seq(ClearType::FromCur) + (if here == selected {
        colours_seq(marked)
    } else {
        Seq::empty()
    }) + row_text(n, here.len() - 1, width) + (if here == selected {
        colours_seq(normal)
    } else {
        Seq::empty()
    })
}

/// The rows of a collection whose parent is at `above`: each task's row,
/// followed by the rows of its children if it is open.
pub open spec fn drawn_forest(
    f: Seq<Node>,
    above: Seq<int>,
    selected: Seq<int>,
    width: int,
    normal: Seq<Colour>,
    marked: Seq<Colour>,
) -> Seq<char>
    decreases f,
{
    if f.len() == 0 {
        Seq::empty()
    } else {
        drawn_forest(f.drop_last(), above, selected, width, normal, marked) + drawn_node(
            f.last(),
            above.push(f.len() - 1),
            selected,
            width,
            normal,
            marked,
        )
    }
}

/// The row of the task at `here` and the rows of what is visible below
/// it.
pub open spec fn drawn_node(
    n: Node,
    here: Seq<int>,
    selected: Seq<int>,
    width: int,
    normal: Seq<Colour>,
    marked: Seq<Colour>,
) -> Seq<char>
    decreases n,
{
    drawn_row(n, here, selected, width, normal, marked) + (if n.open {
        drawn_forest(n.children, here, selected, width, normal, marked)
    } else {
        Seq::empty()
    })
}

/// Selects each of `colours` in turn.
pub fn set_colours(io: &mut IO, colours: &Vec<Colour>)
    ensures
        final(io).out@ == old(io).out@ + colours_seq(colours@),
{
    let mut i: usize = 0;
    assert(colours@.take(0) =~= Seq::<Colour>::empty());
    assert(io.out@ =~= old(io).out@ + colours_seq(colours@.take(0)));
    while i < colours.len()
        invariant
            i <= colours.len(),
            io.out@ == old(io).out@ + colours_seq(colours@.take(i as int)),
        decreases colours.len() - i,
    {
        io.set_colour(colours[i]);
        proof {
            let next = colours@.take(i + 1);
            assert(next.drop_last() =~= colours@.take(i as int));
            assert(next.last() == colours@[i as int]);
            assert(io.out@ =~= old(io).out@ + colours_seq(next));
        }
        i += 1;
    }
    assert(colours@.take(colours.len() as int) =~= colours@);
}

/// Whether two stored paths are the same path.
pub fn same_path(a: &Vec<usize>, b: &Vec<usize>) -> (same: bool)
    ensures
        same == (path_ints(a@) == path_ints(b@)),
{
    if a.len() != b.len() {
        assert(path_ints(a@).len() != path_ints(b@).len());
        return false;
    }
    let mut i: usize = 0;
    while i < a.len()
        invariant
            i <= a.len() == b.len(),
            forall|j: int| 0 <= j < i ==> a@[j] == b@[j],
        decreases a.len() - i,
    {
        if a[i] != b[i] {
            assert(path_ints(a@)[i as int] != path_ints(b@)[i as int]);
            return false;
        }
        i += 1;
    }
    assert(path_ints(a@) =~= path_ints(b@));
    true
}

fn write_spaces(io: &mut IO, n: usize)
    ensures
        final(io).out@ == old(io).out@ + spaces(n as int),
{
    let mut i: usize = 0;
    assert(io.out@ =~= old(io).out@ + spaces(0));
    while i < n
        invariant
            i <= n,
            io.out@ == old(io).out@ + spaces(i as int),
        decreases n - i,
    {
        io.put(' ');
        i += 1;
        assert(io.out@ =~= old(io).out@ + spaces(i as int));
    }
}

fn write_flattened(io: &mut IO, text: &Vec<char>, count: usize)
    requires
        count <= text.len(),
    ensures
        final(io).out@ == old(io).out@ + flattened(text@).take(count as int),
{
    let mut i: usize = 0;
    assert(io.out@ =~= old(io).out@ + flattened(text@).take(0));
    while i < count
        invariant
            i <= count <= text.len(),
            io.out@ == old(io).out@ + flattened(text@).take(i as int),
        decreases count - i,
    {
        let chr: char = text[i];
        if chr == PARAGRAPH_BREAK {
            io.put(' ');
        } else {
            io.put(chr);
        }
        i += 1;
        assert(io.out@ =~= old(io).out@ + flattened(text@).take(i as int));
    }
}

fn write_clipped(io: &mut IO, name: &Vec<char>, room: usize)
    ensures
        final(io).out@ == old(io).out@ + clipped(name@, room as int),
{
    if name.len() > room {
        let kept: usize = if room >= 1 {
            room - 1
        } else {
            0
        };
        write_flattened(io, name, kept);
        io.put(ELLIPSIS);
    } else {
        write_flattened(io, name, name.len());
        assert(flattened(name@).take(name.len() as int) =~= flattened(name@));
    }
}

fn name_room(indent: usize, width: usize) -> (room: usize)
    ensures
        room == name_columns(indent as int, width as int),
{
    if width < ROW_HEAD {
        return 0;
    }
    let rest: usize = width - ROW_HEAD;
    if rest / 2 < indent {
        0
    } else {
        rest - 2 * indent
    }
}

fn write_row(io: &mut IO, node: &Todo, indent: usize, width: usize)
    ensures
        final(io).out@ == old(io).out@ + row_text(node.model(), indent as int, width as int),
{
    let mut i: usize = 0;
    assert(io.out@ =~= old(io).out@ + spaces(0));
    while i < indent
        invariant
            i <= indent,
            io.out@ == old(io).out@ + spaces(2 * i),
        decreases indent - i,
    {
        write_spaces(io, 2);
        i += 1;
        assert(io.out@ =~= old(io).out@ + spaces(2 * i));
    }
    io.put(
        if node.open {
            OPEN_GLYPH
        } else {
            CLOSED_GLYPH
        },
    );
    io.put(' ');
    io.put('[');
    io.put(
        match node.state {
            TodoState::Todo => ' ',
            TodoState::Doing => DOING_GLYPH,
            TodoState::Done => DONE_GLYPH,
        },
    );
    io.put(']');
    io.put(' ');
    let room = name_room(indent, width);
    write_clipped(io, &node.name, room);
    io.put('\n');
    assert(io.out@ =~= old(io).out@ + row_text(node.model(), indent as int, width as int));
}

impl Todo {
    /// Draws the row of the task, which is at `here`, and the rows of
    /// what is visible below it, into a pane of `width` columns. The
    /// selected task is drawn in `select_colour`, the others in
    /// `default_colour`.
    pub fn draw(
        &self,
        io: &mut IO,
        here: &mut Vec<usize>,
        selected: &Vec<usize>,
        width: usize,
        default_colour: &Vec<Colour>,
        select_colour: &Vec<Colour>,
    )
        requires
            old(here).len() > 0,
        ensures
            final(here)@ == old(here)@,
            final(io).out@ == old(io).out@ + drawn_node(
                self.model(),
                path_ints(old(here)@),
                path_ints(selected@),
                width as int,
                default_colour@,
                select_colour@,
            ),
        decreases self,
    {
        let ghost n = self.model();
        let ghost at = path_ints(here@);
        let is_selected: bool = same_path(here, selected);
        io.clear_line(ClearType::FromCur);
        if is_selected {
            set_colours(io, select_colour);
        }
        write_row(io, self, here.len() - 1, width);
        if is_selected {
            set_colours(io, default_colour);
        }
        assert(io.out@ =~= old(io).out@ + drawn_row(
            n,
            at,
            path_ints(selected@),
            width as int,
            default_colour@,
            select_colour@,
        ));
        if self.open {
            let ghost row_done = io.out@;
            proof {
                lemma_model_children(*self);
            }
            let mut k: usize = 0;
            assert(n.children.take(0) =~= Seq::<Node>::empty());
            assert(io.out@ =~= row_done + drawn_forest(
                n.children.take(0),
                at,
                path_ints(selected@),
                width as int,
                default_colour@,
                select_colour@,
            ));
            while k < self.children.len()
                invariant
                    k <= self.children.len(),
                    here@ == old(here)@,
                    at == path_ints(here@),
                    n == self.model(),
                    n.children == forest(self.children@),
                    io.out@ == row_done + drawn_forest(
                        n.children.take(k as int),
                        at,
                        path_ints(selected@),
                        width as int,
                        default_colour@,
                        select_colour@,
                    ),
                decreases self.children.len() - k,
            {
                here.push(k);
                assert(path_ints(here@) =~= at.push(k as int));
                self.children[k].draw(io, here, selected, width, default_colour, select_colour);
                here.pop();
                assert(here@ =~= old(here)@);
                proof {
                    let next = n.children.take(k + 1);
                    assert(next.drop_last() =~= n.children.take(k as int));
                    assert(next.last() == self.children@[k as int].model());
                    assert(io.out@ =~= row_done + drawn_forest(
                        next,
                        at,
                        path_ints(selected@),
                        width as int,
                        default_colour@,
                        select_colour@,
                    ));
                }
                k += 1;
            }
            assert(n.children.take(self.children.len() as int) =~= n.children);
            assert(io.out@ =~= old(io).out@ + drawn_node(
                n,
                at,
                path_ints(selected@),
                width as int,
                default_colour@,
                select_colour@,
            ));
        } else {
            assert(io.out@ =~= old(io).out@ + drawn_node(
                n,
                at,
                path_ints(selected@),
                width as int,
                default_colour@,
                select_colour@,
            ));
        }
    }
}

} // verus!
