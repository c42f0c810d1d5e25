//! Laying a text out in lines of a fixed width, and finding the place of
//! the cursor among those lines.

use vstd::prelude::*;
use crate::text::PARAGRAPH_BREAK;

verus! {

/// Where the first paragraph of `text` ends: the index of its first
/// paragraph break, or its length if it has none.
pub open spec fn first_break(text: Seq<char>) -> int
    decreases text.len(),
{
    if text.len() == 0 || text[0] == PARAGRAPH_BREAK {
        0
    } else {
        1 + first_break(text.drop_first())
    }
}

/// One paragraph cut into lines of exactly `width` characters, but for the
/// last line, which is shorter and may be empty.
pub open spec fn chunks(paragraph: Seq<char>, width: int) -> Seq<Seq<char>>
    decreases paragraph.len(),
{
    if width <= 0 || paragraph.len() < width {
        seq![paragraph]
    } else {
        seq![paragraph.subrange(0, width)] + chunks(
            paragraph.subrange(width, paragraph.len() as int),
            width,
        )
    }
}

/// The display lines of `text`: its paragraphs one after the other, each
/// cut into lines.
pub open spec fn wrap(text: Seq<char>, width: int) -> Seq<Seq<char>>
    decreases text.len(),
{
    let k = first_break(text);
    if 0 <= k < text.len() {
        chunks(text.subrange(0, k), width) + wrap(
            text.subrange(k + 1, text.len() as int),
            width,
        )
    } else {
        chunks(text, width)
    }
}

/// The text that a sequence of display lines stands for: a line shorter
/// than `width` ends its paragraph, so a paragraph break follows it unless
/// it is the last line.
pub open spec fn rejoined(lines: Seq<Seq<char>>, width: int) -> Seq<char>
    decreases lines.len(),
{
    if lines.len() == 0 {
        Seq::empty()
    } else if lines.len() == 1 {
        lines[0]
    } else if lines[0].len() < width {
        lines[0] + seq![PARAGRAPH_BREAK] + rejoined(lines.drop_first(), width)
    } else {
        lines[0] + rejoined(lines.drop_first(), width)
    }
}

/// Column and row of the cursor, counted from 0, when `text` is laid out
/// in lines of `width` and the cursor stands `offset` characters before
/// its end: the end of the last line of what lies before the cursor.
pub open spec fn cursor_cell(text: Seq<char>, width: int, offset: int) -> (int, int) {
    let lines = wrap(text.subrange(0, text.len() - offset), width);
    (lines.last().len() as int, lines.len() - 1)
}

/// The views of stored lines.
pub open spec fn lines_view(lines: Seq<Vec<char>>) -> Seq<Seq<char>> {
    Seq::new(lines.len(), |i: int| lines[i]@)
}

/// The first paragraph break is where no break comes before and either a
/// break or the end of the text stands.
pub proof fn lemma_first_break_is(text: Seq<char>, k: int)
    requires
        0 <= k <= text.len(),
        forall|i: int| 0 <= i < k ==> text[i] != PARAGRAPH_BREAK,
        k == text.len() || text[k] == PARAGRAPH_BREAK,
    ensures
        first_break(text) == k,
    decreases k,
{
    if k > 0 {
        lemma_first_break_is(text.drop_first(), k - 1);
    }
}

/// What `first_break` returns is such a place.
pub proof fn lemma_first_break_props(text: Seq<char>)
    ensures
        0 <= first_break(text) <= text.len(),
        forall|i: int| 0 <= i < first_break(text) ==> text[i] != PARAGRAPH_BREAK,
        first_break(text) == text.len() || text[first_break(text)] == PARAGRAPH_BREAK,
    decreases text.len(),
{
    if !(text.len() == 0 || text[0] == PARAGRAPH_BREAK) {
        let rest = text.drop_first();
        lemma_first_break_props(rest);
        assert forall|i: int| 0 <= i < first_break(text) implies text[i] != PARAGRAPH_BREAK by {
            if i > 0 {
                assert(text[i] == rest[i - 1]);
            }
        }
    }
}

/// The lines of a paragraph: at least one, none longer than the width, the
/// last one shorter, and no more than the paragraph has characters, plus
/// one.
pub proof fn lemma_chunks_shape(paragraph: Seq<char>, width: int)
    requires
        width > 0,
    ensures
        1 <= chunks(paragraph, width).len() <= paragraph.len() + 1,
        chunks(paragraph, width).last().len() < width,
        forall|i: int|
            0 <= i < chunks(paragraph, width).len() ==> #[trigger] chunks(paragraph, width)[i].len()
                <= width,
    decreases paragraph.len(),
{
    if paragraph.len() >= width {
        let rest = paragraph.subrange(width, paragraph.len() as int);
        lemma_chunks_shape(rest, width);
        let head = seq![paragraph.subrange(0, width)];
        assert(chunks(paragraph, width) == head + chunks(rest, width));
        assert forall|i: int| 0 <= i < chunks(paragraph, width).len() implies #[trigger] chunks(
            paragraph,
            width,
        )[i].len() <= width by {
            if i > 0 {
                assert(chunks(paragraph, width)[i] == chunks(rest, width)[i - 1]);
            }
        }
    }
}

/// The lines of a text: at least one, none longer than the width, the last
/// one shorter, and no more than the text has characters, plus one.
pub proof fn lemma_wrap_shape(text: Seq<char>, width: int)
    requires
        width > 0,
    ensures
        1 <= wrap(text, width).len() <= text.len() + 1,
        wrap(text, width).last().len() < width,
        forall|i: int|
            0 <= i < wrap(text, width).len() ==> #[trigger] wrap(text, width)[i].len() <= width,
    decreases text.len(),
{
    let k = first_break(text);
    lemma_first_break_props(text);
    if 0 <= k < text.len() {
        let head = chunks(text.subrange(0, k), width);
        let tail = wrap(text.subrange(k + 1, text.len() as int), width);
        lemma_chunks_shape(text.subrange(0, k), width);
        lemma_wrap_shape(text.subrange(k + 1, text.len() as int), width);
        assert(wrap(text, width) == head + tail);
        assert forall|i: int| 0 <= i < wrap(text, width).len() implies #[trigger] wrap(
            text,
            width,
        )[i].len() <= width by {
            if i < head.len() {
                assert(wrap(text, width)[i] == head[i]);
            } else {
                assert(wrap(text, width)[i] == tail[i - head.len()]);
            }
        }
    } else {
        lemma_chunks_shape(text, width);
    }
}

/// Rejoining the lines of a paragraph, with further lines behind them,
/// gives the paragraph, then a break and the rest if there is a rest.
pub proof fn lemma_rejoined_chunks(paragraph: Seq<char>, more: Seq<Seq<char>>, width: int)
    requires
        width > 0,
    ensures
        rejoined(chunks(paragraph, width) + more, width) == if more.len() == 0 {
            paragraph
        } else {
            paragraph + seq![PARAGRAPH_BREAK] + rejoined(more, width)
        },
    decreases paragraph.len(),
{
    let all = chunks(paragraph, width) + more;
    if paragraph.len() < width {
        assert(all.drop_first() =~= more);
        assert(all[0] == paragraph);
    } else {
        let rest = paragraph.subrange(width, paragraph.len() as int);
        lemma_rejoined_chunks(rest, more, width);
        lemma_chunks_shape(rest, width);
        assert(all.drop_first() =~= chunks(rest, width) + more);
        assert(all[0] == paragraph.subrange(0, width));
        assert(paragraph =~= paragraph.subrange(0, width) + rest);
        if more.len() == 0 {
            assert(rejoined(all, width) =~= paragraph);
        } else {
            assert(rejoined(all, width) =~= paragraph + seq![PARAGRAPH_BREAK] + rejoined(
                more,
                width,
            ));
        }
    }
}

/// Laying a text out loses nothing: putting the lines together again, with
/// a paragraph break behind each line that ends a paragraph but the last,
/// gives the text back.
pub proof fn lemma_wrap_round_trip(text: Seq<char>, width: int)
    requires
        width > 0,
    ensures
        rejoined(wrap(text, width), width) == text,
        wrap(rejoined(wrap(text, width), width), width) == wrap(text, width),
    decreases text.len(),
{
    let k = first_break(text);
    lemma_first_break_props(text);
    if 0 <= k < text.len() {
        let first = text.subrange(0, k);
        let rest = text.subrange(k + 1, text.len() as int);
        lemma_wrap_round_trip(rest, width);
        lemma_wrap_shape(rest, width);
        lemma_rejoined_chunks(first, wrap(rest, width), width);
        assert(text =~= first + seq![PARAGRAPH_BREAK] + rest);
    } else {
        lemma_rejoined_chunks(text, Seq::empty(), width);
        assert(chunks(text, width) + Seq::<Seq<char>>::empty() =~= chunks(text, width));
    }
}

/// A text whose paragraphs are all shorter than the width is laid out one
/// paragraph to a line.
pub open spec fn paragraphs_fit(text: Seq<char>, width: int) -> bool
    decreases text.len(),
{
    let k = first_break(text);
    k < width && (0 <= k < text.len() ==> paragraphs_fit(
        text.subrange(k + 1, text.len() as int),
        width,
    ))
}

/// The paragraphs of a text.
pub open spec fn paragraphs(text: Seq<char>) -> Seq<Seq<char>>
    decreases text.len(),
{
    let k = first_break(text);
    if 0 <= k < text.len() {
        seq![text.subrange(0, k)] + paragraphs(text.subrange(k + 1, text.len() as int))
    } else {
        seq![text]
    }
}

/// Where no paragraph reaches the width, the lines are the paragraphs.
pub proof fn lemma_wrap_of_short_paragraphs(text: Seq<char>, width: int)
    requires
        width > 0,
        paragraphs_fit(text, width),
    ensures
        wrap(text, width) == paragraphs(text),
    decreases text.len(),
{
    let k = first_break(text);
    lemma_first_break_props(text);
    if 0 <= k < text.len() {
        lemma_wrap_of_short_paragraphs(text.subrange(k + 1, text.len() as int), width);
    }
}

fn copy_range(text: &Vec<char>, from: usize, to: usize) -> (piece: Vec<char>)
    requires
        from <= to <= text.len(),
    ensures
        piece@ == text@.subrange(from as int, to as int),
{
    let mut piece: Vec<char> = Vec::new();
    let mut i: usize = from;
    while i < to
        invariant
            from <= i <= to <= text.len(),
            piece@ == text@.subrange(from as int, i as int),
        decreases to - i,
    {
        piece.push(text[i]);
        i += 1;
        assert(piece@ =~= text@.subrange(from as int, i as int));
    }
    piece
}

/// Lays `text` out in lines of `width` characters.
pub fn write_str_with_width(text: &Vec<char>, width: usize) -> (lines: Vec<Vec<char>>)
    requires
        width > 0,
    ensures
        lines_view(lines@) == wrap(text@, width as int),
{
    let len: usize = text.len();
    let mut lines: Vec<Vec<char>> = Vec::new();
    let mut start: usize = 0;
    let mut done: bool = false;
    assert(text@.subrange(0, len as int) =~= text@);
    assert(lines_view(lines@) =~= Seq::empty());
    while !done
        invariant
            width > 0,
            len == text.len(),
            start <= len,
            done ==> lines_view(lines@) == wrap(text@, width as int),
            !done ==> wrap(text@, width as int) == lines_view(lines@) + wrap(
                text@.subrange(start as int, len as int),
                width as int,
            ),
        decreases len - start + (if done { 0int } else { 1int }),
    {
        let ghost rest = text@.subrange(start as int, len as int);
        let ghost before = lines_view(lines@);
        let mut end: usize = start;
        while end < len && text[end] != PARAGRAPH_BREAK
            invariant
                start <= end <= len,
                len == text.len(),
                forall|j: int| start <= j < end ==> text@[j] != PARAGRAPH_BREAK,
            decreases len - end,
        {
            end += 1;
        }
        proof {
            lemma_first_break_is(rest, end - start);
        }
        let ghost paragraph = text@.subrange(start as int, end as int);
        assert(paragraph =~= rest.subrange(0, end - start));
        let mut pos: usize = start;
        assert(text@.subrange(pos as int, end as int) == paragraph);
        while end - pos >= width
            invariant
                width > 0,
                start <= pos <= end <= len,
                len == text.len(),
                before + chunks(paragraph, width as int) == lines_view(lines@) + chunks(
                    text@.subrange(pos as int, end as int),
                    width as int,
                ),
            decreases end - pos,
        {
            let ghost piece = text@.subrange(pos as int, end as int);
            let ghost old_lines = lines_view(lines@);
            let line = copy_range(text, pos, pos + width);
            lines.push(line);
            proof {
                assert(piece.subrange(0, width as int) =~= line@);
                assert(piece.subrange(width as int, piece.len() as int) =~= text@.subrange(
                    pos + width,
                    end as int,
                ));
                assert(lines_view(lines@) =~= old_lines + seq![line@]);
                assert(old_lines + chunks(piece, width as int) =~= lines_view(lines@) + chunks(
                    text@.subrange(pos + width, end as int),
                    width as int,
                ));
            }
            pos += width;
        }
        let ghost old_lines = lines_view(lines@);
        let line = copy_range(text, pos, end);
        lines.push(line);
        proof {
            assert(lines_view(lines@) =~= old_lines + seq![line@]);
            assert(lines_view(lines@) =~= before + chunks(paragraph, width as int));
        }
        if end == len {
            done = true;
        } else {
            proof {
                assert(rest.subrange(end - start + 1, rest.len() as int) =~= text@.subrange(
                    end + 1,
                    len as int,
                ));
                assert(before + (chunks(paragraph, width as int) + wrap(
                    text@.subrange(end + 1, len as int),
                    width as int,
                )) =~= lines_view(lines@) + wrap(
                    text@.subrange(end + 1, len as int),
                    width as int,
                ));
            }
            start = end + 1;
        }
    }
    lines
}

/// The cell of the cursor on the screen, for a text drawn from the cell
/// `start` on in lines of `width`, with the cursor `pos` characters before
/// the end of the text.
pub fn get_curs_pos(text: &Vec<char>, start: (usize, usize), width: usize, pos: usize) -> (cell: (
    usize,
    usize,
))
    requires
        width > 0,
        pos <= text.len(),
        start.0 + width <= usize::MAX,
        start.1 + text.len() <= usize::MAX,
    ensures
        cell.0 == start.0 + cursor_cell(text@, width as int, pos as int).0,
        cell.1 == start.1 + cursor_cell(text@, width as int, pos as int).1,
{
    let before = copy_range(text, 0, text.len() - pos);
    let lines = write_str_with_width(&before, width);
    proof {
        lemma_wrap_shape(before@, width as int);
        assert(lines_view(lines@).len() == lines@.len());
        assert(lines_view(lines@).last() == lines@.last()@);
    }
    let rows: usize = lines.len();
    let column: usize = lines[rows - 1].len();
    (start.0 + column, start.1 + (rows - 1))
}

} // verus!
