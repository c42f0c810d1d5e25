//! A hierarchical task list: a path-addressed tree of tasks with
//! navigation and structural moves, a text-field edit engine with soft
//! wrapping and cursor placement, and the rendering of both panes into a
//! buffer of terminal output.

pub mod details;
pub mod editor;
pub mod keys;
pub mod laws;
pub mod layout;
pub mod model;
pub mod moves;
pub mod paths;
pub mod render;
pub mod term;
pub mod text;
pub mod todos;
pub mod tree;

pub use crate::details::{draw_vertical_line, get_def_colour, get_focus_colour};
pub use crate::editor::todo_step;
pub use crate::keys::{getch, ControlChar, TermChar};
pub use crate::layout::{get_curs_pos, write_str_with_width};
pub use crate::model::{Edit, Field, TodoState};
pub use crate::term::{ClearType, Colour, IO};
pub use crate::todos::{Settings, State, Todos};
pub use crate::tree::{parent_collection, resolve, OutOfRange, Todo};
