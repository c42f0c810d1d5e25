//! Keys as the editor sees them, and how the bytes that a console delivers
//! make them up.

use vstd::prelude::*;

verus! {

/// A key that is no character.
#[derive(Clone, Copy, Debug, PartialEq, Eq, Structural)]
pub enum ControlChar {
    Home,
    Up,
    PgUp,
    Left,
    Right,
    End,
    Down,
    PgDown,
    Insert,
    Delete,
    CtrlUp,
    CtrlDown,
    CtrlLeft,
    CtrlRight,
    CtrlDelete,
    Unknown(u8),
}

/// One key press.
#[derive(Clone, Copy, Debug, PartialEq, Eq, Structural)]
pub enum TermChar {
    Char(char),
    ControlChar(ControlChar),
    Unknown(u8),
}

/// The byte that announces a control key; the key's own byte follows it.
pub const CONTROL_PREFIX: u8 = 224;

/// The highest byte that stands for a character by itself.
pub const LAST_CHAR_BYTE: u8 = 156;

/// The control key that a byte behind the prefix stands for.
pub open spec fn control_of(byte: u8) -> ControlChar {
    if byte == 71 {
        ControlChar::Home
    } else if byte == 72 {
        ControlChar::Up
    } else if byte == 73 {
        ControlChar::PgUp
    } else if byte == 75 {
        ControlChar::Left
    } else if byte == 77 {
        ControlChar::Right
    } else if byte == 79 {
        ControlChar::End
    } else if byte == 80 {
        ControlChar::Down
    } else if byte == 81 {
        ControlChar::PgDown
    } else if byte == 82 {
        ControlChar::Insert
    } else if byte == 83 {
        ControlChar::Delete
    } else if byte == 141 {
        ControlChar::CtrlUp
    } else if byte == 145 {
        ControlChar::CtrlDown
    } else if byte == 115 {
        ControlChar::CtrlLeft
    } else if byte == 116 {
        ControlChar::CtrlRight
    } else if byte == 147 {
        ControlChar::CtrlDelete
    } else {
        ControlChar::Unknown(byte)
    }
}

/// The key that the bytes read so far stand for, if they are a whole key:
/// a byte up to `LAST_CHAR_BYTE` is a character, the prefix needs a second
/// byte, and any other byte is unknown.
pub open spec fn decoded(first: u8, second: Option<u8>) -> Option<TermChar> {
    if first <= LAST_CHAR_BYTE {
        Some(TermChar::Char(first as char))
    } else if first == CONTROL_PREFIX {
        match second {
            Some(byte) => Some(TermChar::ControlChar(control_of(byte))),
            None => None,
        }
    } else {
        Some(TermChar::Unknown(first))
    }
}

fn control(byte: u8) -> (key: ControlChar)
    ensures
        key == control_of(byte),
{
    if byte == 71 {
        ControlChar::Home
    } else if byte == 72 {
        ControlChar::Up
    } else if byte == 73 {
        ControlChar::PgUp
    } else if byte == 75 {
        ControlChar::Left
    } else if byte == 77 {
        ControlChar::Right
    } else if byte == 79 {
        ControlChar::End
    } else if byte == 80 {
        ControlChar::Down
    } else if byte == 81 {
        ControlChar::PgDown
    } else if byte == 82 {
        ControlChar::Insert
    } else if byte == 83 {
        ControlChar::Delete
    } else if byte == 141 {
        ControlChar::CtrlUp
    } else if byte == 145 {
        ControlChar::CtrlDown
    } else if byte == 115 {
        ControlChar::CtrlLeft
    } else if byte == 116 {
        ControlChar::CtrlRight
    } else if byte == 147 {
        ControlChar::CtrlDelete
    } else {
        ControlChar::Unknown(byte)
    }
}

/// Makes a key of the bytes read so far. `None` asks for the byte that
/// follows the prefix: read it and call again with both.
pub fn getch(first: u8, second: Option<u8>) -> (key: Option<TermChar>)
    ensures
        key == decoded(first, second),
        key is None <==> first == CONTROL_PREFIX && second is None,
{
    if first <= LAST_CHAR_BYTE {
        Some(TermChar::Char(first as char))
    } else if first == CONTROL_PREFIX {
        match second {
            Some(byte) => Some(TermChar::ControlChar(control(byte))),
            None => None,
        }
    } else {
        Some(TermChar::Unknown(first))
    }
}

} // verus!
