//! What each key does to the editor.

use vstd::prelude::*;
use crate::keys::{ControlChar, TermChar};
use crate::model::{Edit, Field, Node, blank_node, edited, node_at, valid_path, with_node};
use crate::moves::{
    forest_after_remove, move_down_target, move_up_target, moved, select_next_target,
    select_prev_target, selection_after_remove,
};
use crate::text::{backspaced, inserted, offset_left, offset_right, word_backspaced};
use crate::todos::{State, Todos};

verus! {

/// The editor's state as a value of the model, colours left aside. The
/// cursor is the text that is being edited and the distance of the cursor
/// from the end of that text; there is none while the tree has the keys.
pub ghost struct Editor {
    pub forest: Seq<Node>,
    pub path: Seq<int>,
    pub cursor: Option<(Field, int)>,
    pub scroll: int,
}

/// The key that ends the session when the console sends an interrupt.
pub const INTERRUPT: char = '\x03';

/// The escape key, which ends the session too.
pub const QUIT: char = '\x1b';

/// The key that deletes a word backwards.
pub const DELETE_WORD: char = '\x7f';

/// The key that deletes a character backwards.
pub const DELETE_CHAR: char = '\x08';

/// What the console sends for the pound sign.
pub const POUND_KEY: char = '\u{9c}';

/// The pound sign.
pub const POUND: char = '\u{a3}';

impl Editor {
    /// The selected task.
    pub open spec fn current(self) -> Node {
        node_at(self.forest, self.path)
    }

    /// The selection addresses a task, and the cursor lies within the text
    /// that is being edited.
    pub open spec fn wf(self) -> bool {
        &&& valid_path(self.forest, self.path)
        &&& match self.cursor {
            Some((field, offset)) => 0 <= offset <= self.current().text(field).len(),
            None => true,
        }
    }

    /// Whether the tree has the keys.
    pub open spec fn browsing(self) -> bool {
        self.cursor is None
    }

    /// The editor with another task in the place of the selected one.
    pub open spec fn changed(self, n: Node) -> Editor {
        Editor { forest: with_node(self.forest, self.path, n), ..self }
    }

    /// The editor with another text in the selected task.
    pub open spec fn with_text(self, field: Field, text: Seq<char>) -> Editor {
        self.changed(self.current().with_text(field, text))
    }

    /// The editor after a character has been typed: it goes into the text
    /// that is being edited, and nowhere while the tree has the keys.
    pub open spec fn typed(self, chr: char) -> Editor {
        match self.cursor {
            Some((field, offset)) => self.with_text(
                field,
                inserted(self.current().text(field), offset, chr),
            ),
            None => self,
        }
    }

    /// The editor after the character before the cursor has been deleted.
    pub open spec fn erased(self) -> Editor {
        match self.cursor {
            Some((field, offset)) => self.with_text(
                field,
                backspaced(self.current().text(field), offset),
            ),
            None => self,
        }
    }

    /// The editor after the word before the cursor has been deleted.
    pub open spec fn word_erased(self) -> Editor {
        match self.cursor {
            Some((field, offset)) => self.with_text(
                field,
                word_backspaced(self.current().text(field), offset),
            ),
            None => self,
        }
    }

    /// The editor after the character behind the cursor has been deleted:
    /// the cursor steps over it, then it is deleted backwards.
    pub open spec fn erased_forward(self) -> Editor {
        match self.cursor {
            Some((field, offset)) => if offset > 0 {
                (Editor { cursor: Some((field, offset - 1)), ..self }).erased()
            } else {
                self
            },
            None => self,
        }
    }

    /// The editor with the cursor at another place of the same text.
    pub open spec fn with_cursor(self, offset: int) -> Editor {
        match self.cursor {
            Some((field, _)) => Editor { cursor: Some((field, offset)), ..self },
            None => self,
        }
    }

    /// The editor in the next mode: tree, name, description, and round
    /// again, each text entered with the cursor at its end.
    pub open spec fn next_mode(self) -> Editor {
        Editor {
            cursor: match self.cursor {
                None => Some((Field::Name, 0int)),
                Some((Field::Name, _)) => Some((Field::Description, 0int)),
                Some((Field::Description, _)) => None,
            },
            ..self
        }
    }

    /// The editor after a character key; `None` where the key ends the
    /// session.
    pub open spec fn after_char(self, chr: char) -> Option<Editor> {
        if chr == INTERRUPT || chr == QUIT {
            None
        } else if chr == '\r' || chr == ' ' {
            Some(
                if self.browsing() {
                    self.changed(edited(self.current(), Edit::Advance))
                } else {
                    self.typed(chr)
                },
            )
        } else if chr == '\t' {
            Some(self.next_mode())
        } else if chr == '+' {
            Some(
                if self.browsing() {
                    Editor {
                        forest: self.forest.push(blank_node()),
                        path: seq![self.forest.len() as int],
                        ..self
                    }
                } else {
                    self.typed(chr)
                },
            )
        } else if chr == DELETE_WORD {
            Some(self.word_erased())
        } else if chr == DELETE_CHAR {
            Some(self.erased())
        } else if chr == POUND_KEY {
            Some(self.typed(POUND))
        } else if ' ' <= chr && chr <= '~' {
            Some(self.typed(chr))
        } else {
            Some(self)
        }
    }

    /// The editor after a control key.
    pub open spec fn after_control(self, key: ControlChar) -> Editor {
        match key {
            ControlChar::Up => if self.browsing() {
                Editor { path: select_prev_target(self.forest, self.path), ..self }
            } else if self.scroll > 0 {
                Editor { scroll: self.scroll - 1, ..self }
            } else {
                self
            },
            ControlChar::Down => if self.browsing() {
                Editor { path: select_next_target(self.forest, self.path), ..self }
            } else if self.scroll < usize::MAX {
                Editor { scroll: self.scroll + 1, ..self }
            } else {
                self
            },
            ControlChar::Left => match self.cursor {
                None => self.changed(edited(self.current(), Edit::SetOpen(false))),
                Some((field, offset)) => self.with_cursor(
                    offset_left(self.current().text(field).len() as int, offset),
                ),
            },
            ControlChar::Right => match self.cursor {
                None => self.changed(edited(self.current(), Edit::SetOpen(true))),
                Some((field, offset)) => self.with_cursor(offset_right(offset)),
            },
            ControlChar::CtrlDown => if self.browsing() {
                Editor {
                    forest: moved(
                        self.forest,
                        self.path,
                        move_down_target(self.forest, self.path),
                    ),
                    path: move_down_target(self.forest, self.path),
                    ..self
                }
            } else {
                self
            },
            ControlChar::CtrlUp => if self.browsing() {
                Editor {
                    forest: moved(self.forest, self.path, move_up_target(self.forest, self.path)),
                    path: move_up_target(self.forest, self.path),
                    ..self
                }
            } else {
                self
            },
            ControlChar::Delete => if self.browsing() {
                Editor {
                    forest: forest_after_remove(self.forest, self.path),
                    path: selection_after_remove(self.path),
                    ..self
                }
            } else {
                self.erased_forward()
            },
            ControlChar::Home => match self.cursor {
                Some((field, _)) => self.with_cursor(self.current().text(field).len() as int),
                None => self,
            },
            ControlChar::End => self.with_cursor(0),
            _ => self,
        }
    }

    /// The editor after a key; `None` where the key ends the session.
    pub open spec fn after_key(self, key: TermChar) -> Option<Editor> {
        match key {
            TermChar::Char(chr) => self.after_char(chr),
            TermChar::ControlChar(control) => Some(self.after_control(control)),
            TermChar::Unknown(_) => Some(self),
        }
    }
}

impl Todos {
    /// The editor's state as a value of the model.
    pub open spec fn editor(self) -> Editor {
        Editor {
            forest: self.forest(),
            path: self.path(),
            cursor: self.state.place(),
            scroll: self.scroll_ofset as int,
        }
    }

    fn press_char(&mut self, chr: char) -> (go_on: bool)
        requires
            old(self).wf(),
        ensures
            final(self).wf(),
            final(self).settings == old(self).settings,
            match old(self).editor().after_char(chr) {
                Some(next) => go_on && final(self).editor() == next,
                None => !go_on && final(self).editor() == old(self).editor(),
            },
    {
        if chr == INTERRUPT || chr == QUIT {
            return false;
        }
        if chr == '\r' || chr == ' ' {
            if self.state == State::Tree {
                self.update_state();
            } else {
                self.try_update(chr);
            }
        } else if chr == '\t' {
            self.state.next();
        } else if chr == '+' {
            if self.state == State::Tree {
                self.add_todo();
            } else {
                self.try_update(chr);
            }
        } else if chr == DELETE_WORD {
            self.try_backspace_word();
        } else if chr == DELETE_CHAR {
            self.try_backspace();
        } else if chr == POUND_KEY {
            self.try_update(POUND);
        } else if ' ' <= chr && chr <= '~' {
            self.try_update(chr);
        }
        true
    }

    fn press_control(&mut self, key: ControlChar)
        requires
            old(self).wf(),
        ensures
            final(self).wf(),
            final(self).settings == old(self).settings,
            final(self).editor() == old(self).editor().after_control(key),
    {
        match key {
            ControlChar::Up => {
                if self.state == State::Tree {
                    self.select_prev();
                } else if self.scroll_ofset > 0 {
                    self.scroll_ofset -= 1;
                }
            },
            ControlChar::Down => {
                if self.state == State::Tree {
                    self.select_next();
                } else if self.scroll_ofset < usize::MAX {
                    self.scroll_ofset += 1;
                }
            },
            ControlChar::Left => {
                if self.state == State::Tree {
                    self.close_sel();
                } else {
                    self.try_move_curs_left();
                }
            },
            ControlChar::Right => {
                if self.state == State::Tree {
                    self.open_sel();
                } else {
                    self.try_move_curs_right();
                }
            },
            ControlChar::CtrlDown => {
                self.move_sel_down();
            },
            ControlChar::CtrlUp => {
                self.move_sel_up();
            },
            ControlChar::Delete => {
                match self.state {
                    State::Tree => {
                        self.remove_todo();
                    },
                    State::Name(offset) => {
                        if offset > 0 {
                            self.state = State::Name(offset - 1);
                            self.try_backspace();
                        }
                    },
                    State::Description(offset) => {
                        if offset > 0 {
                            self.state = State::Description(offset - 1);
                            self.try_backspace();
                        }
                    },
                }
            },
            ControlChar::Home => {
                self.try_move_curs_home();
            },
            ControlChar::End => {
                self.try_move_curs_end();
            },
            _ => {},
        }
    }
}

/// Carries out what `key` stands for. Returns whether the session goes on:
/// the interrupt and the escape key end it and change nothing.
pub fn todo_step(todos: &mut Todos, key: TermChar) -> (go_on: bool)
    requires
        old(todos).wf(),
    ensures
        final(todos).wf(),
        final(todos).settings == old(todos).settings,
        match old(todos).editor().after_key(key) {
            Some(next) => go_on && final(todos).editor() == next,
            None => !go_on && final(todos).editor() == old(todos).editor(),
        },
{
    match key {
        TermChar::Char(chr) => todos.press_char(chr),
        TermChar::ControlChar(control) => {
            todos.press_control(control);
            true
        },
        TermChar::Unknown(_) => true,
    }
}

} // verus!
