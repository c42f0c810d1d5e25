//! Editing one text through a cursor that is counted from the end of the
//! text: offset 0 is the end, offset `len` the start.

use vstd::prelude::*;
use vstd::string::StrSliceExecFns;

verus! {

/// The character that separates the paragraphs of a text.
pub const PARAGRAPH_BREAK: char = '\r';

/// `text` with `chr` put in at the cursor.
pub open spec fn inserted(text: Seq<char>, offset: int, chr: char) -> Seq<char> {
    text.insert(text.len() - offset, chr)
}

/// `text` without the character before the cursor, if there is one.
pub open spec fn backspaced(text: Seq<char>, offset: int) -> Seq<char> {
    if 0 <= offset < text.len() {
        text.remove(text.len() - offset - 1)
    } else {
        text
    }
}

/// How many spaces stand directly before position `end`.
pub open spec fn spaces_before(text: Seq<char>, end: int) -> int
    decreases end,
{
    if 0 < end <= text.len() && text[end - 1] == ' ' {
        1 + spaces_before(text, end - 1)
    } else {
        0
    }
}

/// How many characters that are neither a space nor a paragraph break
/// stand directly before position `end`.
pub open spec fn word_before(text: Seq<char>, end: int) -> int
    decreases end,
{
    if 0 < end <= text.len() && text[end - 1] != ' ' && text[end - 1] != PARAGRAPH_BREAK {
        1 + word_before(text, end - 1)
    } else {
        0
    }
}

/// How many characters a word deletion takes away before the cursor: one
/// paragraph break, or else the spaces before the cursor and the word
/// before them.
pub open spec fn word_span(text: Seq<char>, offset: int) -> int {
    let end = text.len() - offset;
    if !(0 < end <= text.len()) {
        0
    } else if text[end - 1] == PARAGRAPH_BREAK {
        1
    } else {
        spaces_before(text, end) + word_before(text, end - spaces_before(text, end))
    }
}

/// `text` without the span that a word deletion takes away.
pub open spec fn word_backspaced(text: Seq<char>, offset: int) -> Seq<char> {
    let end = text.len() - offset;
    text.subrange(0, end - word_span(text, offset)) + text.subrange(end, text.len() as int)
}

/// The offset after a step towards the start of the text.
pub open spec fn offset_left(len: int, offset: int) -> int {
    if offset < len {
        offset + 1
    } else {
        offset
    }
}

/// The offset after a step towards the end of the text.
pub open spec fn offset_right(offset: int) -> int {
    if offset > 0 {
        offset - 1
    } else {
        offset
    }
}

/// The spaces before a position are no more than the position.
pub proof fn lemma_spaces_before_bounds(text: Seq<char>, end: int)
    ensures
        0 <= spaces_before(text, end),
        0 <= end ==> spaces_before(text, end) <= end,
    decreases end,
{
    if 0 < end <= text.len() && text[end - 1] == ' ' {
        lemma_spaces_before_bounds(text, end - 1);
    }
}

/// The word before a position is no longer than the position.
pub proof fn lemma_word_before_bounds(text: Seq<char>, end: int)
    ensures
        0 <= word_before(text, end),
        0 <= end ==> word_before(text, end) <= end,
    decreases end,
{
    if 0 < end <= text.len() && text[end - 1] != ' ' && text[end - 1] != PARAGRAPH_BREAK {
        lemma_word_before_bounds(text, end - 1);
    }
}

/// A word deletion never reaches past the start of the text.
pub proof fn lemma_word_span_bounds(text: Seq<char>, offset: int)
    requires
        0 <= offset <= text.len(),
    ensures
        0 <= word_span(text, offset) <= text.len() - offset,
{
    let end = text.len() - offset;
    lemma_spaces_before_bounds(text, end);
    lemma_word_before_bounds(text, end - spaces_before(text, end));
}

/// Inserting a character and deleting backwards at once gives back the
/// text; the offset is touched by neither.
pub proof fn lemma_insert_then_backspace(text: Seq<char>, offset: int, chr: char)
    requires
        0 <= offset <= text.len(),
    ensures
        backspaced(inserted(text, offset, chr), offset) == text,
{
    assert(backspaced(inserted(text, offset, chr), offset) =~= text);
}

/// The characters of `text`.
pub fn text_from(text: &str) -> (chars: Vec<char>)
    ensures
        chars@ == text@,
{
    let n: usize = text.unicode_len();
    let mut chars: Vec<char> = Vec::new();
    let mut i: usize = 0;
    while i < n
        invariant
            i <= n == text@.len(),
            chars@ == text@.subrange(0, i as int),
        decreases n - i,
    {
        chars.push(text.get_char(i));
        i += 1;
        assert(chars@ =~= text@.subrange(0, i as int));
    }
    assert(text@.subrange(0, n as int) =~= text@);
    chars
}

/// Puts `chr` in at the cursor. The offset stays as it is: the cursor keeps
/// its distance from the end.
pub fn insert_char(text: &mut Vec<char>, offset: usize, chr: char)
    requires
        offset <= old(text).len(),
    ensures
        final(text)@ == inserted(old(text)@, offset as int, chr),
{
    let at: usize = text.len() - offset;
    text.insert(at, chr);
}

/// Deletes the character before the cursor; at the start of the text
/// nothing happens.
pub fn backspace(text: &mut Vec<char>, offset: usize)
    ensures
        final(text)@ == backspaced(old(text)@, offset as int),
{
    let len: usize = text.len();
    if offset < len {
        text.remove(len - offset - 1);
    }
}

/// Counts what a word deletion at the cursor takes away.
pub fn measure_word(text: &Vec<char>, offset: usize) -> (span: usize)
    requires
        offset <= text.len(),
    ensures
        span == word_span(text@, offset as int),
{
    let end: usize = text.len() - offset;
    if end == 0 {
        return 0;
    }
    if text[end - 1] == PARAGRAPH_BREAK {
        return 1;
    }
    let mut j: usize = 0;
    while end > j && text[end - j - 1] == ' '
        invariant
            j <= end <= text.len(),
            spaces_before(text@, end as int) == j + spaces_before(text@, end - j),
        decreases end - j,
    {
        j += 1;
    }
    let ghost spaces = j as int;
    while end > j && text[end - j - 1] != ' ' && text[end - j - 1] != PARAGRAPH_BREAK
        invariant
            spaces <= j <= end <= text.len(),
            spaces == spaces_before(text@, end as int),
            word_before(text@, end - spaces) == (j - spaces) + word_before(text@, end - j),
        decreases end - j,
    {
        j += 1;
    }
    j
}

/// Deletes backwards by a word: a paragraph break alone, or else the spaces
/// before the cursor together with the word before them.
pub fn backspace_word(text: &mut Vec<char>, offset: usize)
    requires
        offset <= old(text).len(),
    ensures
        final(text)@ == word_backspaced(old(text)@, offset as int),
{
    let span: usize = measure_word(text, offset);
    proof {
        lemma_word_span_bounds(text@, offset as int);
    }
    let ghost end = text.len() - offset;
    let mut k: usize = 0;
    while k < span
        invariant
            k <= span <= end,
            end + offset == old(text)@.len(),
            text@ == old(text)@.subrange(0, end - k) + old(text)@.subrange(
                end,
                old(text)@.len() as int,
            ),
        decreases span - k,
    {
        backspace(text, offset);
        k += 1;
        assert(text@ =~= old(text)@.subrange(0, end - k) + old(text)@.subrange(
            end,
            old(text)@.len() as int,
        ));
    }
}

/// Moves the cursor one character towards the start of the text.
pub fn move_left(len: usize, offset: usize) -> (moved: usize)
    ensures
        moved == offset_left(len as int, offset as int),
{
    if offset < len {
        offset + 1
    } else {
        offset
    }
}

/// Moves the cursor one character towards the end of the text.
pub fn move_right(offset: usize) -> (moved: usize)
    ensures
        moved == offset_right(offset as int),
{
    if offset > 0 {
        offset - 1
    } else {
        offset
    }
}

} // verus!
