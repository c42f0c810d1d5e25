//! Terminal output as data: control sequences are appended to a buffer of
//! characters, which the caller hands to the terminal when it sees fit.

use vstd::prelude::*;
use vstd::string::StrSliceExecFns;

verus! {

/// The character that opens every control sequence.
pub const ESCAPE: char = '\x1b';

/// Text attributes and colours, each standing for its number in a
/// "select graphic rendition" sequence.
#[derive(Clone, Copy, Debug, PartialEq, Eq, Structural)]
pub enum Colour {
    Default,
    BoldBright,
    NoBoldBright,
    Underline,
    NoUnderline,
    Negative,
    Positive,
    ForegroundBlack,
    ForegroundRed,
    ForegroundGreen,
    ForegroundYellow,
    ForegroundBlue,
    ForegroundMagenta,
    ForegroundCyan,
    ForegroundWhite,
    ForegroundExtended,
    ForegroundDefault,
    BackgroundBlack,
    BackgroundRed,
    BackgroundGreen,
    BackgroundYellow,
    BackgroundBlue,
    BackgroundMagenta,
    BackgroundCyan,
    BackgroundWhite,
    BackgroundExtended,
    BackgroundDefault,
    BrightForegroundBlack,
    BrightForegroundRed,
    BrightForegroundGreen,
    BrightForegroundYellow,
    BrightForegroundBlue,
    BrightForegroundMagenta,
    BrightForegroundCyan,
    BrightForegroundWhite,
    BrightBackgroundBlack,
    BrightBackgroundRed,
    BrightBackgroundGreen,
    BrightBackgroundYellow,
    BrightBackgroundBlue,
    BrightBackgroundMagenta,
    BrightBackgroundCyan,
    BrightBackgroundWhite,
}

impl Colour {
    /// The number that selects this attribute.
    pub open spec fn spec_code(self) -> nat {
        match self {
            Colour::Default => 0,
            Colour::BoldBright => 1,
            Colour::NoBoldBright => 22,
            Colour::Underline => 4,
            Colour::NoUnderline => 24,
            Colour::Negative => 7,
            Colour::Positive => 27,
            Colour::ForegroundBlack => 30,
            Colour::ForegroundRed => 31,
            Colour::ForegroundGreen => 32,
            Colour::ForegroundYellow => 33,
            Colour::ForegroundBlue => 34,
            Colour::ForegroundMagenta => 35,
            Colour::ForegroundCyan => 36,
            Colour::ForegroundWhite => 37,
            Colour::ForegroundExtended => 38,
            Colour::ForegroundDefault => 39,
            Colour::BackgroundBlack => 40,
            Colour::BackgroundRed => 41,
            Colour::BackgroundGreen => 42,
            Colour::BackgroundYellow => 43,
            Colour::BackgroundBlue => 44,
            Colour::BackgroundMagenta => 45,
            Colour::BackgroundCyan => 46,
            Colour::BackgroundWhite => 47,
            Colour::BackgroundExtended => 48,
            Colour::BackgroundDefault => 49,
            Colour::BrightForegroundBlack => 90,
            Colour::BrightForegroundRed => 91,
            Colour::BrightForegroundGreen => 92,
            Colour::BrightForegroundYellow => 93,
            Colour::BrightForegroundBlue => 94,
            Colour::BrightForegroundMagenta => 95,
            Colour::BrightForegroundCyan => 96,
            Colour::BrightForegroundWhite => 97,
            Colour::BrightBackgroundBlack => 100,
            Colour::BrightBackgroundRed => 101,
            Colour::BrightBackgroundGreen => 102,
            Colour::BrightBackgroundYellow => 103,
            Colour::BrightBackgroundBlue => 104,
            Colour::BrightBackgroundMagenta => 105,
            Colour::BrightBackgroundCyan => 106,
            Colour::BrightBackgroundWhite => 107,
        }
    }

    /// The number that selects the attribute.
    pub fn code(self) -> (n: usize)
        ensures
            n == self.spec_code(),
    {
        match self {
            Colour::Default => 0,
            Colour::BoldBright => 1,
            Colour::NoBoldBright => 22,
            Colour::Underline => 4,
            Colour::NoUnderline => 24,
            Colour::Negative => 7,
            Colour::Positive => 27,
            Colour::ForegroundBlack => 30,
            Colour::ForegroundRed => 31,
            Colour::ForegroundGreen => 32,
            Colour::ForegroundYellow => 33,
            Colour::ForegroundBlue => 34,
            Colour::ForegroundMagenta => 35,
            Colour::ForegroundCyan => 36,
            Colour::ForegroundWhite => 37,
            Colour::ForegroundExtended => 38,
            Colour::ForegroundDefault => 39,
            Colour::BackgroundBlack => 40,
            Colour::BackgroundRed => 41,
            Colour::BackgroundGreen => 42,
            Colour::BackgroundYellow => 43,
            Colour::BackgroundBlue => 44,
            Colour::BackgroundMagenta => 45,
            Colour::BackgroundCyan => 46,
            Colour::BackgroundWhite => 47,
            Colour::BackgroundExtended => 48,
            Colour::BackgroundDefault => 49,
            Colour::BrightForegroundBlack => 90,
            Colour::BrightForegroundRed => 91,
            Colour::BrightForegroundGreen => 92,
            Colour::BrightForegroundYellow => 93,
            Colour::BrightForegroundBlue => 94,
            Colour::BrightForegroundMagenta => 95,
            Colour::BrightForegroundCyan => 96,
            Colour::BrightForegroundWhite => 97,
            Colour::BrightBackgroundBlack => 100,
            Colour::BrightBackgroundRed => 101,
            Colour::BrightBackgroundGreen => 102,
            Colour::BrightBackgroundYellow => 103,
            Colour::BrightBackgroundBlue => 104,
            Colour::BrightBackgroundMagenta => 105,
            Colour::BrightBackgroundCyan => 106,
            Colour::BrightBackgroundWhite => 107,
        }
    }
}

/// Which part of the display or of the line an erase sequence clears.
#[derive(Clone, Copy, Debug, PartialEq, Eq, Structural)]
pub enum ClearType {
    FromCur,
    ToCur,
    All,
}

impl ClearType {
    /// The number that selects this extent.
    pub open spec fn spec_code(self) -> nat {
        match self {
            ClearType::FromCur => 0,
            ClearType::ToCur => 1,
            ClearType::All => 2,
        }
    }

    /// The number that selects the extent.
    pub fn code(self) -> (n: usize)
        ensures
            n == self.spec_code(),
    {
        match self {
            ClearType::FromCur => 0,
            ClearType::ToCur => 1,
            ClearType::All => 2,
        }
    }
}

/// The character of one decimal digit.
pub open spec fn digit_char(d: int) -> char {
    if d == 0 {
        '0'
    } else if d == 1 {
        '1'
    } else if d == 2 {
        '2'
    } else if d == 3 {
        '3'
    } else if d == 4 {
        '4'
    } else if d == 5 {
        '5'
    } else if d == 6 {
        '6'
    } else if d == 7 {
        '7'
    } else if d == 8 {
        '8'
    } else {
        '9'
    }
}

/// A number in decimal, without leading zeros.
pub open spec fn decimal(n: nat) -> Seq<char>
    decreases n,
{
    if n < 10 {
        seq![digit_char(n as int)]
    } else {
        decimal(n / 10).push(digit_char((n % 10) as int))
    }
}

/// The sequence that puts the cursor in column `x` of row `y`, both counted
/// from 1.
pub open spec fn move_cur_seq(x: nat, y: nat) -> Seq<char> {
    seq![ESCAPE, '['] + decimal(x) + seq!['G', ESCAPE, '['] + decimal(y) + seq!['d']
}

/// The sequence that selects a colour or attribute.
pub open spec fn colour_seq(c: Colour) -> Seq<char> {
    seq![ESCAPE, '['] + decimal(c.spec_code()) + seq!['m']
}

/// The sequence that erases part of the display.
pub open spec fn clear_display_seq(c: ClearType) -> Seq<char> {
    seq![ESCAPE, '['] + decimal(c.spec_code()) + seq!['J']
}

/// The sequence that erases part of the cursor's line.
pub open spec fn clear_line_seq(c: ClearType) -> Seq<char> {
    seq![ESCAPE, '['] + decimal(c.spec_code()) + seq!['K']
}

/// The sequence that makes the cursor visible.
pub open spec fn show_cur_seq() -> Seq<char> {
    seq![ESCAPE, '[', '?', '2', '5', 'h']
}

/// The sequence that hides the cursor.
pub open spec fn hide_cur_seq() -> Seq<char> {
    seq![ESCAPE, '[', '?', '2', '5', 'l']
}

/// Saves the cursor, switches to the alternate screen and goes to its
/// first cell.
pub open spec fn set_up_screen_seq() -> Seq<char> {
    seq![ESCAPE, '7', ESCAPE, '[', '?', '1', '0', '4', '9', 'h'] + move_cur_seq(1, 1)
}

/// Leaves the alternate screen and restores the cursor.
pub open spec fn restore_screen_seq() -> Seq<char> {
    seq![ESCAPE, '[', '?', '1', '0', '4', '9', 'l', ESCAPE, '8']
}

fn digit(d: usize) -> (c: char)
    requires
        d < 10,
    ensures
        c == digit_char(d as int),
{
    if d == 0 {
        '0'
    } else if d == 1 {
        '1'
    } else if d == 2 {
        '2'
    } else if d == 3 {
        '3'
    } else if d == 4 {
        '4'
    } else if d == 5 {
        '5'
    } else if d == 6 {
        '6'
    } else if d == 7 {
        '7'
    } else if d == 8 {
        '8'
    } else {
        '9'
    }
}

/// Appends `n` in decimal.
pub fn push_decimal(out: &mut Vec<char>, n: usize)
    ensures
        final(out)@ == old(out)@ + decimal(n as nat),
    decreases n,
{
    if n < 10 {
        out.push(digit(n));
        assert(out@ =~= old(out)@ + decimal(n as nat));
    } else {
        push_decimal(out, n / 10);
        out.push(digit(n % 10));
        assert(out@ =~= old(out)@ + decimal(n as nat));
    }
}

/// Output that waits to be written to the terminal.
#[derive(Clone, Debug, PartialEq, Eq)]
pub struct IO {
    pub out: Vec<char>,
}

impl IO {
    /// A buffer with nothing in it.
    pub fn new() -> (io: IO)
        ensures
            io.out@ == Seq::<char>::empty(),
    {
        IO { out: Vec::new() }
    }

    /// Appends one character.
    pub fn put(&mut self, chr: char)
        ensures
            final(self).out@ == old(self).out@.push(chr),
    {
        self.out.push(chr);
    }

    /// Appends a text.
    pub fn write(&mut self, text: &str)
        ensures
            final(self).out@ == old(self).out@ + text@,
    {
        let n: usize = text.unicode_len();
        let mut i: usize = 0;
        while i < n
            invariant
                i <= n == text@.len(),
                self.out@ == old(self).out@ + text@.subrange(0, i as int),
            decreases n - i,
        {
            self.out.push(text.get_char(i));
            i += 1;
            assert(self.out@ =~= old(self).out@ + text@.subrange(0, i as int));
        }
        assert(text@.subrange(0, n as int) =~= text@);
    }

    /// Appends the characters of `text`.
    pub fn write_chars(&mut self, text: &Vec<char>)
        ensures
            final(self).out@ == old(self).out@ + text@,
    {
        let mut i: usize = 0;
        while i < text.len()
            invariant
                i <= text.len(),
                self.out@ == old(self).out@ + text@.subrange(0, i as int),
            decreases text.len() - i,
        {
            self.out.push(text[i]);
            i += 1;
            assert(self.out@ =~= old(self).out@ + text@.subrange(0, i as int));
        }
        assert(text@.subrange(0, text.len() as int) =~= text@);
    }

    /// Puts the cursor in column `x` of row `y`, both counted from 1.
    pub fn move_cur(&mut self, x: usize, y: usize)
        ensures
            final(self).out@ == old(self).out@ + move_cur_seq(x as nat, y as nat),
    {
        self.out.push(ESCAPE);
        self.out.push('[');
        push_decimal(&mut self.out, x);
        self.out.push('G');
        self.out.push(ESCAPE);
        self.out.push('[');
        push_decimal(&mut self.out, y);
        self.out.push('d');
        assert(self.out@ =~= old(self).out@ + move_cur_seq(x as nat, y as nat));
    }

    /// Saves the cursor and enters the alternate screen.
    pub fn set_up_screen(&mut self)
        ensures
            final(self).out@ == old(self).out@ + set_up_screen_seq(),
    {
        self.out.push(ESCAPE);
        self.out.push('7');
        self.out.push(ESCAPE);
        self.out.push('[');
        self.out.push('?');
        self.out.push('1');
        self.out.push('0');
        self.out.push('4');
        self.out.push('9');
        self.out.push('h');
        self.move_cur(1, 1);
        assert(self.out@ =~= old(self).out@ + set_up_screen_seq());
    }

    /// Leaves the alternate screen and restores the cursor.
    pub fn restore_screen(&mut self)
        ensures
            final(self).out@ == old(self).out@ + restore_screen_seq(),
    {
        self.out.push(ESCAPE);
        self.out.push('[');
        self.out.push('?');
        self.out.push('1');
        self.out.push('0');
        self.out.push('4');
        self.out.push('9');
        self.out.push('l');
        self.out.push(ESCAPE);
        self.out.push('8');
        assert(self.out@ =~= old(self).out@ + restore_screen_seq());
    }

    /// The sequence that selects `c`.
    pub fn get_colour(c: Colour) -> (sequence: Vec<char>)
        ensures
            sequence@ == colour_seq(c),
    {
        let mut sequence: Vec<char> = Vec::new();
        sequence.push(ESCAPE);
        sequence.push('[');
        push_decimal(&mut sequence, c.code());
        sequence.push('m');
        assert(sequence@ =~= colour_seq(c));
        sequence
    }

    /// Selects a colour or attribute for what is written next.
    pub fn set_colour(&mut self, c: Colour)
        ensures
            final(self).out@ == old(self).out@ + colour_seq(c),
    {
        let sequence = Self::get_colour(c);
        self.write_chars(&sequence);
    }

    /// Erases part of the display.
    pub fn clear_display(&mut self, c: ClearType)
        ensures
            final(self).out@ == old(self).out@ + clear_display_seq(c),
    {
        self.out.push(ESCAPE);
        self.out.push('[');
        push_decimal(&mut self.out, c.code());
        self.out.push('J');
        assert(self.out@ =~= old(self).out@ + clear_display_seq(c));
    }

    /// Erases part of the cursor's line.
    pub fn clear_line(&mut self, c: ClearType)
        ensures
            final(self).out@ == old(self).out@ + clear_line_seq(c),
    {
        self.out.push(ESCAPE);
        self.out.push('[');
        push_decimal(&mut self.out, c.code());
        self.out.push('K');
        assert(self.out@ =~= old(self).out@ + clear_line_seq(c));
    }

    /// Makes the cursor visible.
    pub fn show_cur(&mut self)
        ensures
            final(self).out@ == old(self).out@ + show_cur_seq(),
    {
        self.out.push(ESCAPE);
        self.out.push('[');
        self.out.push('?');
        self.out.push('2');
        self.out.push('5');
        self.out.push('h');
        assert(self.out@ =~= old(self).out@ + show_cur_seq());
    }

    /// Hides the cursor.
    pub fn hide_cur(&mut self)
        ensures
            final(self).out@ == old(self).out@ + hide_cur_seq(),
    {
        self.out.push(ESCAPE);
        self.out.push('[');
        self.out.push('?');
        self.out.push('2');
        self.out.push('5');
        self.out.push('l');
        assert(self.out@ =~= old(self).out@ + hide_cur_seq());
    }
}

} // verus!
