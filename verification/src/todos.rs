//! The editor's state: the tree, the selection, the mode, and the
//! operations that keys stand for.

use vstd::prelude::*;
use crate::model::{
    Edit, Field, Node, blank_node, edited, node_at, path_ints, prefix_valid_from, removed,
    siblings_from, valid_path, with_node,
};
use crate::moves::{
    forest_after_remove, lemma_inserted_is_valid, lemma_move_down_fits, lemma_move_up_fits,
    lemma_remove_keeps_selection, lemma_removed_parent_shape, lemma_removed_shape,
    lemma_select_valid, lemma_turn_valid, lemma_with_node, move_down_target, move_up_target,
    moved, select_next_target, select_prev_target, selection_after_remove, with_last,
};
use crate::text::{lemma_word_span_bounds, move_left, move_right, offset_left, offset_right};
use crate::paths::lemma_same_parent;
use crate::term::Colour;
use crate::tree::{
    Todo, edit_at, find_turn, forest, get_ptr, get_sibling, insert_at, lemma_model_children,
    parent_len, push_last_visible, remove_at, resolve,
};

verus! {

/// What the keys act on: the tree, or one text of the selected task with
/// the cursor's distance from the end of that text.
#[derive(Clone, Copy, Debug, PartialEq, Eq, Structural)]
pub enum State {
    Tree,
    Name(usize),
    Description(usize),
}

impl State {
    /// The mode that follows: tree, name, description, and round again,
    /// each text entered with the cursor at its end.
    pub open spec fn successor(self) -> State {
        match self {
            State::Tree => State::Name(0),
            State::Name(_) => State::Description(0),
            State::Description(_) => State::Tree,
        }
    }

    /// The text that is being edited and the cursor in it.
    pub open spec fn cursor(self) -> Option<(Field, usize)> {
        match self {
            State::Tree => None,
            State::Name(i) => Some((Field::Name, i)),
            State::Description(i) => Some((Field::Description, i)),
        }
    }

    /// The text that is being edited and the cursor in it, as a whole
    /// number: no two modes have the same.
    pub open spec fn place(self) -> Option<(Field, int)> {
        match self {
            State::Tree => None,
            State::Name(i) => Some((Field::Name, i as int)),
            State::Description(i) => Some((Field::Description, i as int)),
        }
    }

    /// Goes on to the next mode.
    pub fn next(&mut self)
        ensures
            *final(self) == old(self).successor(),
    {
        *self =
        match self {
            State::Tree => State::Name(0),
            State::Name(_) => State::Description(0),
            State::Description(_) => State::Tree,
        };
    }
}

/// The colours of the two panes.
#[derive(Clone, Copy, Debug, PartialEq, Eq, Structural)]
pub struct Settings {
    pub active_focused: Colour,
    pub active_focused_background: Colour,
    pub active_focused_modifier: Colour,
    pub active_blured: Colour,
    pub active_blured_background: Colour,
    pub active_blured_modifier: Colour,
    pub focused: Colour,
    pub blured: Colour,
    pub ui_elements: Colour,
    pub background: Colour,
    pub modifier: Colour,
}

impl Settings {
    /// Black on bright white for the selected task, white on black for the
    /// rest, yellow for rules and the scroll bar.
    pub fn new() -> (settings: Settings)
        ensures
            settings == (Settings {
                active_focused: Colour::ForegroundBlack,
                active_focused_background: Colour::BrightBackgroundWhite,
                active_focused_modifier: Colour::NoUnderline,
                active_blured: Colour::BrightForegroundBlack,
                active_blured_background: Colour::BackgroundWhite,
                active_blured_modifier: Colour::NoUnderline,
                focused: Colour::BrightForegroundWhite,
                blured: Colour::ForegroundWhite,
                ui_elements: Colour::ForegroundYellow,
                background: Colour::BackgroundBlack,
                modifier: Colour::NoUnderline,
            }),
    {
        Settings {
            active_focused: Colour::ForegroundBlack,
            active_focused_background: Colour::BrightBackgroundWhite,
            active_focused_modifier: Colour::NoUnderline,
            active_blured: Colour::BrightForegroundBlack,
            active_blured_background: Colour::BackgroundWhite,
            active_blured_modifier: Colour::NoUnderline,
            focused: Colour::BrightForegroundWhite,
            blured: Colour::ForegroundWhite,
            ui_elements: Colour::ForegroundYellow,
            background: Colour::BackgroundBlack,
            modifier: Colour::NoUnderline,
        }
    }
}

/// The whole state of the editor.
#[derive(Debug, PartialEq, Eq)]
pub struct Todos {
    pub data: Vec<Todo>,
    pub selected: Vec<usize>,
    pub settings: Settings,
    pub state: State,
    pub scroll_ofset: usize,
}

/// The collections of a stored forest are no longer than a `Vec` can be.
pub proof fn lemma_stored_len(nodes: Vec<Todo>, p: Seq<int>, d: int)
    requires
        0 <= d,
        prefix_valid_from(forest(nodes@), p, d),
    ensures
        siblings_from(forest(nodes@), p, d).len() <= usize::MAX,
    decreases p.len() - d,
{
    if d + 1 < p.len() {
        lemma_model_children(nodes@[p[d]]);
        lemma_stored_len(nodes@[p[d]].children, p, d + 1);
    } else {
        assert(forest(nodes@).len() == nodes.len());
    }
}

impl Todos {
    /// The tree as a value of the model.
    pub open spec fn forest(self) -> Seq<Node> {
        forest(self.data@)
    }

    /// The selection as a path of the model.
    pub open spec fn path(self) -> Seq<int> {
        path_ints(self.selected@)
    }

    /// The selected task.
    pub open spec fn current(self) -> Node {
        node_at(self.forest(), self.path())
    }

    /// The selection addresses a task, and the cursor lies within the text
    /// that is being edited.
    pub open spec fn wf(self) -> bool {
        &&& valid_path(self.forest(), self.path())
        &&& match self.state.cursor() {
            Some((field, offset)) => offset <= self.current().text(field).len(),
            None => true,
        }
    }

    /// Everything but the tree is the same in both.
    pub open spec fn same_view(self, other: Todos) -> bool {
        &&& self.selected == other.selected
        &&& self.settings == other.settings
        &&& self.state == other.state
        &&& self.scroll_ofset == other.scroll_ofset
    }

    /// Everything but the selection is the same in both.
    pub open spec fn same_tree(self, other: Todos) -> bool {
        &&& self.data == other.data
        &&& self.settings == other.settings
        &&& self.state == other.state
        &&& self.scroll_ofset == other.scroll_ofset
    }

    /// Everything but the tree and the selection is the same in both.
    pub open spec fn same_mode(self, other: Todos) -> bool {
        &&& self.settings == other.settings
        &&& self.state == other.state
        &&& self.scroll_ofset == other.scroll_ofset
    }

    /// Whether the selection addresses a task of the tree.
    pub fn is_sel_valid(&self) -> (valid: bool)
        ensures
            valid == valid_path(self.forest(), self.path()),
    {
        resolve(&self.data, &self.selected).is_ok()
    }

    /// Selects the task before the selected one among those that are
    /// visible. Acts only while the tree has the keys.
    pub fn select_prev(&mut self)
        requires
            old(self).wf(),
        ensures
            final(self).wf(),
            final(self).same_tree(*old(self)),
            final(self).path() == if old(self).state == State::Tree {
                select_prev_target(old(self).forest(), old(self).path())
            } else {
                old(self).path()
            },
    {
        if self.state != State::Tree {
            return ;
        }
        proof {
            lemma_select_valid(self.forest(), self.path());
        }
        let n: usize = self.selected.len();
        let last: usize = self.selected[n - 1];
        assert(self.path().last() == last);
        if last == 0 {
            if n > 1 {
                self.selected.pop();
                assert(self.path() =~= old(self).path().drop_last());
            }
        } else {
            self.selected.pop();
            self.selected.push(last - 1);
            assert(self.path() =~= with_last(old(self).path(), last - 1));
            proof {
                lemma_same_parent(self.forest(), old(self).path(), self.path(), 0, Seq::empty());
            }
            let node = get_ptr(&self.data, &self.selected);
            push_last_visible(node, &mut self.selected);
        }
    }

    /// Selects the task after the selected one among those that are
    /// visible. Acts only while the tree has the keys.
    pub fn select_next(&mut self)
        requires
            old(self).wf(),
        ensures
            final(self).wf(),
            final(self).same_tree(*old(self)),
            final(self).path() == if old(self).state == State::Tree {
                select_next_target(old(self).forest(), old(self).path())
            } else {
                old(self).path()
            },
    {
        if self.state != State::Tree {
            return ;
        }
        proof {
            lemma_select_valid(self.forest(), self.path());
        }
        let node = get_ptr(&self.data, &self.selected);
        if node.open && node.children.len() > 0 {
            proof {
                lemma_model_children(*node);
            }
            self.selected.push(0);
            assert(self.path() =~= old(self).path().push(0));
        } else {
            proof {
                lemma_model_children(*node);
            }
            match find_turn(&self.data, &self.selected, 0) {
                Some(level) => {
                    proof {
                        lemma_turn_valid(self.forest(), self.path(), 0);
                        let t = self.path().take(level as int).push(self.path()[level as int] + 1);
                        lemma_stored_len(self.data, t, 0);
                    }
                    let index: usize = self.selected[level];
                    self.selected.truncate(level);
                    self.selected.push(index + 1);
                    assert(self.path() =~= old(self).path().take(level as int).push(
                        old(self).path()[level as int] + 1,
                    ));
                },
                None => {},
            }
        }
    }

    /// Moves the selected task, with all below it, one place towards the
    /// end of the traversal. Acts only while the tree has the keys.
    pub fn move_sel_down(&mut self)
        requires
            old(self).wf(),
        ensures
            final(self).wf(),
            final(self).same_mode(*old(self)),
            old(self).state != State::Tree ==> *final(self) == *old(self),
            old(self).state == State::Tree ==> final(self).path() == move_down_target(
                old(self).forest(),
                old(self).path(),
            ) && final(self).forest() == moved(
                old(self).forest(),
                old(self).path(),
                move_down_target(old(self).forest(), old(self).path()),
            ),
    {
        if self.state != State::Tree {
            return ;
        }
        let ghost f = self.forest();
        let ghost p = self.path();
        let ghost t = move_down_target(f, p);
        proof {
            lemma_move_down_fits(f, p);
            lemma_stored_len(self.data, p, 0);
        }
        let n: usize = self.selected.len();
        let index: usize = self.selected[n - 1];
        assert(p.last() == index);
        let count: usize = parent_len(&self.data, &self.selected, 0);
        if index + 1 < count {
            let next_open: bool = get_sibling(&self.data, &self.selected, 0, index + 1).open;
            let item = remove_at(&mut self.data, &self.selected, 0);
            if next_open {
                self.selected.push(0);
                assert(self.path() =~= p.push(0));
            } else {
                self.selected.pop();
                self.selected.push(index + 1);
                assert(self.path() =~= with_last(p, index + 1));
            }
            assert(self.path() == t);
            assert(t != p) by {
                if t == p {
                    assert(t.len() == p.len());
                    assert(t.last() == p.last());
                }
            }
            insert_at(&mut self.data, &self.selected, 0, item);
            proof {
                lemma_inserted_is_valid(removed(f, p), t, node_at(f, p));
            }
        } else if n > 1 {
            proof {
                lemma_removed_parent_shape(f, p);
                lemma_stored_len(self.data, p.drop_last(), 0);
            }
            let item = remove_at(&mut self.data, &self.selected, 0);
            self.selected.pop();
            let above: usize = self.selected[n - 2];
            assert(p.drop_last().last() == above);
            self.selected.pop();
            self.selected.push(above + 1);
            assert(self.path() =~= t);
            assert(t != p) by {
                if t == p {
                    assert(t.len() == p.len());
                }
            }
            insert_at(&mut self.data, &self.selected, 0, item);
            proof {
                lemma_inserted_is_valid(removed(f, p), t, node_at(f, p));
            }
        } else {
            assert(t == p);
        }
    }

    /// Moves the selected task, with all below it, one place towards the
    /// start of the traversal. Acts only while the tree has the keys.
    pub fn move_sel_up(&mut self)
        requires
            old(self).wf(),
        ensures
            final(self).wf(),
            final(self).same_mode(*old(self)),
            old(self).state != State::Tree ==> *final(self) == *old(self),
            old(self).state == State::Tree ==> final(self).path() == move_up_target(
                old(self).forest(),
                old(self).path(),
            ) && final(self).forest() == moved(
                old(self).forest(),
                old(self).path(),
                move_up_target(old(self).forest(), old(self).path()),
            ),
    {
        if self.state != State::Tree {
            return ;
        }
        let ghost f = self.forest();
        let ghost p = self.path();
        let ghost t = move_up_target(f, p);
        proof {
            lemma_move_up_fits(f, p);
        }
        let n: usize = self.selected.len();
        let index: usize = self.selected[n - 1];
        assert(p.last() == index);
        if index == 0 {
            if n > 1 {
                let item = remove_at(&mut self.data, &self.selected, 0);
                self.selected.pop();
                assert(self.path() =~= t);
                assert(t != p) by {
                    if t == p {
                        assert(t.len() == p.len());
                    }
                }
                insert_at(&mut self.data, &self.selected, 0, item);
                proof {
                    lemma_inserted_is_valid(removed(f, p), t, node_at(f, p));
                }
            } else {
                assert(t == p);
            }
        } else {
            let previous = get_sibling(&self.data, &self.selected, 0, index - 1);
            let descend: bool = previous.open;
            let below: usize = previous.children.len();
            proof {
                lemma_model_children(*previous);
            }
            let item = remove_at(&mut self.data, &self.selected, 0);
            self.selected.pop();
            self.selected.push(index - 1);
            if descend {
                self.selected.push(below);
            }
            assert(self.path() =~= t);
            assert(t != p) by {
                if t == p {
                    assert(t.len() == p.len());
                    assert(t.last() == p.last());
                }
            }
            insert_at(&mut self.data, &self.selected, 0, item);
            proof {
                lemma_inserted_is_valid(removed(f, p), t, node_at(f, p));
            }
        }
    }

    fn edit_selected(&mut self, edit: Edit)
        requires
            valid_path(old(self).forest(), old(self).path()),
            crate::model::edit_applies(old(self).current(), edit),
        ensures
            final(self).same_view(*old(self)),
            final(self).forest() == with_node(
                old(self).forest(),
                old(self).path(),
                edited(old(self).current(), edit),
            ),
            valid_path(final(self).forest(), final(self).path()),
            final(self).current() == edited(old(self).current(), edit),
    {
        proof {
            lemma_with_node(self.forest(), self.path(), edited(self.current(), edit));
        }
        edit_at(&mut self.data, &self.selected, 0, edit);
    }

    /// An editor for `data` with the tree in focus. An empty tree gets one
    /// task that asks for more; a selection that addresses nothing is
    /// replaced by the first root.
    pub fn new(data: Vec<Todo>, selected: Vec<usize>, settings: Settings) -> (todos: Todos)
        ensures
            todos.wf(),
            todos.state == State::Tree,
            todos.scroll_ofset == 0,
            todos.settings == settings,
            todos.forest() == if data@.len() == 0 {
                seq![Node { name: placeholder_name(), ..blank_node() }]
            } else {
                forest(data@)
            },
            todos.path() == if valid_path(todos.forest(), path_ints(selected@)) {
                path_ints(selected@)
            } else {
                seq![0int]
            },
    {
        let mut todos = Todos { data, selected, settings, state: State::Tree, scroll_ofset: 0 };
        if todos.data.len() == 0 {
            let name: Vec<char> = vec!['A', 'd', 'd', ' ', 'T', 'o', 'd', 'o', 's'];
            assert(name@ =~= placeholder_name());
            todos.data.push(Todo::new(name));
            assert(todos.forest() =~= seq![Node { name: placeholder_name(), ..blank_node() }]);
        }
        if !todos.is_sel_valid() {
            todos.selected = vec![0];
            assert(todos.path() =~= seq![0int]);
        }
        todos
    }

    /// Moves the selected task's state one step on. Acts only while the
    /// tree has the keys.
    pub fn update_state(&mut self)
        requires
            old(self).wf(),
        ensures
            final(self).wf(),
            final(self).same_view(*old(self)),
            final(self).forest() == if old(self).state == State::Tree {
                with_node(
                    old(self).forest(),
                    old(self).path(),
                    edited(old(self).current(), Edit::Advance),
                )
            } else {
                old(self).forest()
            },
    {
        if self.state == State::Tree {
            self.edit_selected(Edit::Advance);
        }
    }

    /// Hides what lies below the selected task. Acts only while the tree
    /// has the keys.
    pub fn close_sel(&mut self)
        requires
            old(self).wf(),
        ensures
            final(self).wf(),
            final(self).same_view(*old(self)),
            final(self).forest() == if old(self).state == State::Tree {
                with_node(
                    old(self).forest(),
                    old(self).path(),
                    edited(old(self).current(), Edit::SetOpen(false)),
                )
            } else {
                old(self).forest()
            },
    {
        if self.state == State::Tree {
            self.edit_selected(Edit::SetOpen(false));
        }
    }

    /// Shows what lies below the selected task. Acts only while the tree
    /// has the keys.
    pub fn open_sel(&mut self)
        requires
            old(self).wf(),
        ensures
            final(self).wf(),
            final(self).same_view(*old(self)),
            final(self).forest() == if old(self).state == State::Tree {
                with_node(
                    old(self).forest(),
                    old(self).path(),
                    edited(old(self).current(), Edit::SetOpen(true)),
                )
            } else {
                old(self).forest()
            },
    {
        if self.state == State::Tree {
            self.edit_selected(Edit::SetOpen(true));
        }
    }

    /// Appends a blank task to the roots and selects it, in any mode. The
    /// mode stays, so a cursor that was not at the end of its text is left
    /// outside the new task's empty text.
    pub fn add_todo(&mut self)
        ensures
            final(self).same_mode(*old(self)),
            final(self).forest() == old(self).forest().push(blank_node()),
            final(self).path() == seq![old(self).forest().len() as int],
            final(self).current() == blank_node(),
            valid_path(final(self).forest(), final(self).path()),
            final(self).wf() <==> match old(self).state.cursor() {
                Some((_, offset)) => offset == 0,
                None => true,
            },
    {
        self.selected = vec![self.data.len()];
        self.data.push(Todo::new(Vec::new()));
        assert(self.forest() =~= old(self).forest().push(blank_node()));
        assert(self.path() =~= seq![old(self).forest().len() as int]);
    }

    /// Removes the selected task with all below it, in any mode, and
    /// selects its previous sibling, else its parent, else the first root.
    /// A tree that would be left empty gets one blank task. The mode stays:
    /// while the tree has the keys the editor is well formed afterwards.
    pub fn remove_todo(&mut self)
        requires
            valid_path(old(self).forest(), old(self).path()),
        ensures
            final(self).same_mode(*old(self)),
            valid_path(final(self).forest(), final(self).path()),
            final(self).forest().len() > 0,
            old(self).state == State::Tree ==> final(self).wf(),
            final(self).forest() == forest_after_remove(old(self).forest(), old(self).path()),
            final(self).path() == selection_after_remove(old(self).path()),
            old(self).forest().len() == 1 && old(self).path().len() == 1 ==> final(self).forest()
                == seq![blank_node()],
    {
        let ghost f = self.forest();
        let ghost p = self.path();
        proof {
            lemma_remove_keeps_selection(f, p);
        }
        let n: usize = self.selected.len();
        let index: usize = self.selected[n - 1];
        assert(p.last() == index);
        let _ = remove_at(&mut self.data, &self.selected, 0);
        assert(self.forest() == removed(f, p));
        if index > 0 {
            self.selected.pop();
            self.selected.push(index - 1);
            assert(self.path() =~= with_last(p, index - 1));
            proof {
                lemma_same_parent(f, p, self.path(), 0, Seq::empty());
                lemma_removed_shape(f, p);
                lemma_same_parent(removed(f, p), p, self.path(), 0, Seq::empty());
            }
        } else if n > 1 {
            self.selected.pop();
            assert(self.path() =~= p.drop_last());
            proof {
                lemma_removed_parent_shape(f, p);
            }
        } else if self.data.len() == 0 {
            self.add_todo();
            assert(self.forest() =~= seq![blank_node()]);
            assert(self.path() =~= p);
        }
    }

    /// Puts `chr` into the text that is being edited, at the cursor. Does
    /// nothing while the tree has the keys.
    pub fn try_update(&mut self, chr: char)
        requires
            old(self).wf(),
        ensures
            final(self).wf(),
            final(self).same_view(*old(self)),
            final(self).forest() == match old(self).state.cursor() {
                Some((field, offset)) => with_node(
                    old(self).forest(),
                    old(self).path(),
                    edited(old(self).current(), Edit::Insert(field, offset, chr)),
                ),
                None => old(self).forest(),
            },
    {
        match self.state {
            State::Tree => {},
            State::Name(offset) => {
                self.edit_selected(Edit::Insert(Field::Name, offset, chr));
            },
            State::Description(offset) => {
                self.edit_selected(Edit::Insert(Field::Description, offset, chr));
            },
        }
    }

    /// Deletes the character before the cursor in the text that is being
    /// edited. Does nothing at the start of the text or while the tree has
    /// the keys.
    pub fn try_backspace(&mut self)
        requires
            old(self).wf(),
        ensures
            final(self).wf(),
            final(self).same_view(*old(self)),
            final(self).forest() == match old(self).state.cursor() {
                Some((field, offset)) => with_node(
                    old(self).forest(),
                    old(self).path(),
                    edited(old(self).current(), Edit::Backspace(field, offset)),
                ),
                None => old(self).forest(),
            },
    {
        match self.state {
            State::Tree => {},
            State::Name(offset) => {
                self.edit_selected(Edit::Backspace(Field::Name, offset));
            },
            State::Description(offset) => {
                self.edit_selected(Edit::Backspace(Field::Description, offset));
            },
        }
    }

    /// Deletes backwards by a word in the text that is being edited. Does
    /// nothing while the tree has the keys.
    pub fn try_backspace_word(&mut self)
        requires
            old(self).wf(),
        ensures
            final(self).wf(),
            final(self).same_view(*old(self)),
            final(self).forest() == match old(self).state.cursor() {
                Some((field, offset)) => with_node(
                    old(self).forest(),
                    old(self).path(),
                    edited(old(self).current(), Edit::BackspaceWord(field, offset)),
                ),
                None => old(self).forest(),
            },
    {
        proof {
            match self.state.cursor() {
                Some((field, offset)) => {
                    lemma_word_span_bounds(self.current().text(field), offset as int);
                },
                None => {},
            }
        }
        match self.state {
            State::Tree => {},
            State::Name(offset) => {
                self.edit_selected(Edit::BackspaceWord(Field::Name, offset));
            },
            State::Description(offset) => {
                self.edit_selected(Edit::BackspaceWord(Field::Description, offset));
            },
        }
    }

    /// Moves the cursor one character towards the start of the text.
    pub fn try_move_curs_left(&mut self)
        requires
            old(self).wf(),
        ensures
            final(self).wf(),
            final(self).data == old(self).data,
            final(self).selected == old(self).selected,
            final(self).settings == old(self).settings,
            final(self).scroll_ofset == old(self).scroll_ofset,
            final(self).state.place() == match old(self).state.cursor() {
                Some((field, offset)) => Some(
                    (
                        field,
                        offset_left(old(self).current().text(field).len() as int, offset as int),
                    ),
                ),
                None => None,
            },
    {
        match self.state {
            State::Tree => {},
            State::Name(offset) => {
                let len: usize = get_ptr(&self.data, &self.selected).name.len();
                self.state = State::Name(move_left(len, offset));
            },
            State::Description(offset) => {
                let len: usize = get_ptr(&self.data, &self.selected).description.len();
                self.state = State::Description(move_left(len, offset));
            },
        }
    }

    /// Moves the cursor one character towards the end of the text.
    pub fn try_move_curs_right(&mut self)
        requires
            old(self).wf(),
        ensures
            final(self).wf(),
            final(self).data == old(self).data,
            final(self).selected == old(self).selected,
            final(self).settings == old(self).settings,
            final(self).scroll_ofset == old(self).scroll_ofset,
            final(self).state.place() == match old(self).state.cursor() {
                Some((field, offset)) => Some((field, offset_right(offset as int))),
                None => None,
            },
    {
        match self.state {
            State::Tree => {},
            State::Name(offset) => {
                self.state = State::Name(move_right(offset));
            },
            State::Description(offset) => {
                self.state = State::Description(move_right(offset));
            },
        }
    }

    /// Puts the cursor at the start of the text.
    pub fn try_move_curs_home(&mut self)
        requires
            old(self).wf(),
        ensures
            final(self).wf(),
            final(self).data == old(self).data,
            final(self).selected == old(self).selected,
            final(self).settings == old(self).settings,
            final(self).scroll_ofset == old(self).scroll_ofset,
            final(self).state.place() == match old(self).state.cursor() {
                Some((field, _)) => Some((field, old(self).current().text(field).len() as int)),
                None => None,
            },
    {
        match self.state {
            State::Tree => {},
            State::Name(_) => {
                let len: usize = get_ptr(&self.data, &self.selected).name.len();
                self.state = State::Name(len);
            },
            State::Description(_) => {
                let len: usize = get_ptr(&self.data, &self.selected).description.len();
                self.state = State::Description(len);
            },
        }
    }

    /// Puts the cursor at the end of the text.
    pub fn try_move_curs_end(&mut self)
        requires
            old(self).wf(),
        ensures
            final(self).wf(),
            final(self).data == old(self).data,
            final(self).selected == old(self).selected,
            final(self).settings == old(self).settings,
            final(self).scroll_ofset == old(self).scroll_ofset,
            final(self).state.place() == match old(self).state.cursor() {
                Some((field, _)) => Some((field, 0int)),
                None => None,
            },
    {
        match self.state {
            State::Tree => {},
            State::Name(_) => {
                self.state = State::Name(0);
            },
            State::Description(_) => {
                self.state = State::Description(0);
            },
        }
    }
}

/// The name of the task that an empty tree is given at the start.
pub open spec fn placeholder_name() -> Seq<char> {
    seq!['A', 'd', 'd', ' ', 'T', 'o', 'd', 'o', 's']
}

} // verus!
