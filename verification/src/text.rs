//! Texts and rows: how a text is cut into lines, and how rows are written out
//! as text again.
use crate::model::{has_cell, tile_at, EMPTY};
use vstd::prelude::*;

verus! {

/// The rows that a vector of rows stands for.
pub open spec fn rows_of(rows: Vec<Vec<char>>) -> Seq<Seq<char>> {
    Seq::new(rows@.len(), |r: int| rows@[r]@)
}

/// The index of the first line feed in `text`, or the length of `text` if it
/// has none.
pub open spec fn line_end(text: Seq<char>) -> int
    decreases text.len(),
{
    if text.len() == 0 || text[0] == '\n' {
        0
    } else {
        1 + line_end(text.drop_first())
    }
}

/// A line without the carriage return at its end, if it has one there.
pub open spec fn without_cr(line: Seq<char>) -> Seq<char> {
    if line.len() > 0 && line.last() == '\r' {
        line.drop_last()
    } else {
        line
    }
}

/// The lines of a text.
///
/// A line ends at a line feed, or at the end of the text. The line feed is not
/// part of the line, nor is a carriage return that stands directly before it.
/// A text that ends in a line feed has no further, empty line after it, and
/// the empty text has no line.
pub open spec fn lines_of(text: Seq<char>) -> Seq<Seq<char>>
    decreases text.len(),
{
    let end = line_end(text);
    if text.len() == 0 {
        Seq::empty()
    } else if 0 <= end < text.len() {
        seq![without_cr(text.take(end))] + lines_of(text.skip(end + 1))
    } else {
        seq![text]
    }
}

/// The text that shows rows: each row is followed by a space, which marks its
/// end, and a line feed.
pub open spec fn rendered(rows: Seq<Seq<char>>) -> Seq<char>
    decreases rows.len(),
{
    if rows.len() == 0 {
        Seq::empty()
    } else {
        rows[0] + seq![EMPTY, '\n'] + rendered(rows.drop_first())
    }
}

/// The rows, each with the space after it that marks its end in the rendered
/// text.
pub open spec fn marked(rows: Seq<Seq<char>>) -> Seq<Seq<char>> {
    Seq::new(rows.len(), |r: int| rows[r].push(EMPTY))
}

/// `line_end` is the index of the first line feed, or the length.
pub proof fn lemma_line_end(text: Seq<char>)
    ensures
        0 <= line_end(text) <= text.len(),
        forall|i: int| 0 <= i < line_end(text) ==> text[i] != '\n',
        line_end(text) < text.len() ==> text[line_end(text)] == '\n',
    decreases text.len(),
{
    if text.len() == 0 || text[0] == '\n' {
    } else {
        let rest = text.drop_first();
        lemma_line_end(rest);
        assert forall|i: int| 0 <= i < line_end(text) implies text[i] != '\n' by {
            if i > 0 {
                assert(text[i] == rest[i - 1]);
            }
        }
        if line_end(rest) < rest.len() {
            assert(rest[line_end(rest)] == text[line_end(text)]);
        }
    }
}

/// A text without a line feed before the index `end`, and with one at `end`
/// or with its end there, has its first line end at `end`.
pub proof fn lemma_line_end_is(text: Seq<char>, end: int)
    requires
        0 <= end <= text.len(),
        forall|i: int| 0 <= i < end ==> text[i] != '\n',
        end < text.len() ==> text[end] == '\n',
    ensures
        line_end(text) == end,
{
    lemma_line_end(text);
}

/// Rendering changes no row: the lines of the rendered text are the rows, in
/// their order, each with its characters in their order and the marking space
/// after them. This holds of rows without a line feed, and so of every grid.
pub proof fn lemma_rendered_lines(rows: Seq<Seq<char>>)
    requires
        forall|pos: (int, int)| #[trigger] has_cell(rows, pos) ==> tile_at(rows, pos) != '\n',
    ensures
        lines_of(rendered(rows)) == marked(rows),
    decreases rows.len(),
{
    if rows.len() == 0 {
        assert(lines_of(rendered(rows)) =~= marked(rows));
    } else {
        let row = rows[0];
        let rest = rows.drop_first();
        let text = rendered(rows);
        let end = row.len() as int + 1;
        assert forall|i: int| 0 <= i < end implies text[i] != '\n' by {
            if i < row.len() {
                assert(has_cell(rows, (0, i)));
                assert(text[i] == tile_at(rows, (0, i)));
            }
        }
        lemma_line_end_is(text, end);
        assert(text.take(end) =~= row.push(EMPTY));
        assert(text.skip(end + 1) =~= rendered(rest));
        assert forall|pos: (int, int)| #[trigger] has_cell(rest, pos) implies tile_at(rest, pos)
            != '\n' by {
            assert(has_cell(rows, (pos.0 + 1, pos.1)));
            assert(tile_at(rest, pos) == tile_at(rows, (pos.0 + 1, pos.1)));
        }
        lemma_rendered_lines(rest);
        assert(lines_of(text) =~= seq![row.push(EMPTY)] + marked(rest));
        assert(seq![row.push(EMPTY)] + marked(rest) =~= marked(rows));
    }
}

/// `String::push` of the standard library: the character is appended to the
/// end of the string, and the characters before it stay as they are.
#[verifier::external_body]
pub(crate) fn push_char(text: &mut String, ch: char)
    ensures
        final(text)@ == old(text)@.push(ch),
{
    text.push(ch);
}

/// Cuts a text into its lines.
pub fn split_lines(text: &str) -> (rows: Vec<Vec<char>>)
    ensures
        rows_of(rows) == lines_of(text@),
{
    let mut rows: Vec<Vec<char>> = Vec::new();
    let mut line: Vec<char> = Vec::new();
    let ghost mut rest: Seq<char> = text@;
    for ch in chars: text.chars()
        invariant
            chars.seq() == text@,
            rest == text@.skip(chars.index() as int),
            forall|i: int| 0 <= i < line@.len() ==> line@[i] != '\n',
            lines_of(text@) == rows_of(rows) + lines_of(line@ + rest),
    {
        proof {
            lemma_line_end(line@ + rest);
            assert(rest[0] == ch);
            assert((line@ + rest)[line@.len() as int] == ch);
            assert((line@ + rest).take(line@.len() as int) =~= line@);
            assert((line@ + rest).skip(line@.len() as int + 1) =~= rest.drop_first());
            assert(rest.drop_first() =~= text@.skip(chars.index() + 1));
            assert(line@.push(ch) + rest.drop_first() =~= line@ + rest);
        }
        let ghost done = rows_of(rows);
        if ch == '\n' {
            let n = line.len();
            if n > 0 && line[n - 1] == '\r' {
                line.pop();
            }
            rows.push(line);
            line = Vec::new();
            proof {
                assert(rows_of(rows) =~= done + seq![rows@.last()@]);
                assert(line@ + rest.drop_first() =~= rest.drop_first());
            }
        } else {
            line.push(ch);
        }
        proof {
            rest = rest.drop_first();
        }
    }
    proof {
        assert(rest =~= Seq::<char>::empty());
        assert(line@ + rest =~= line@);
        lemma_line_end(line@);
    }
    if line.len() > 0 {
        let ghost done = rows_of(rows);
        rows.push(line);
        proof {
            assert(rows_of(rows) =~= done + seq![rows@.last()@]);
        }
    } else {
        assert(rows_of(rows) + Seq::<Seq<char>>::empty() =~= rows_of(rows));
    }
    rows
}

/// Writes rows out as text, one row a line.
pub fn render_rows(rows: &Vec<Vec<char>>) -> (text: String)
    ensures
        text@ == rendered(rows_of(*rows)),
{
    let ghost cells = rows_of(*rows);
    let mut text = String::new();
    let mut r: usize = 0;
    proof {
        assert(cells.skip(0) =~= cells);
        assert(text@ + rendered(cells) =~= rendered(cells));
    }
    while r < rows.len()
        invariant
            cells == rows_of(*rows),
            r <= rows.len(),
            rendered(cells) == text@ + rendered(cells.skip(r as int)),
        decreases rows.len() - r,
    {
        let row = &rows[r];
        let ghost start = text@;
        let mut c: usize = 0;
        while c < row.len()
            invariant
                c <= row.len(),
                text@ == start + row@.take(c as int),
            decreases row.len() - c,
        {
            push_char(&mut text, row[c]);
            c += 1;
            assert(text@ =~= start + row@.take(c as int));
        }
        push_char(&mut text, EMPTY);
        push_char(&mut text, '\n');
        proof {
            assert(row@.take(row@.len() as int) =~= row@);
            assert(cells.skip(r as int)[0] == row@);
            assert(cells.skip(r as int).drop_first() =~= cells.skip(r + 1));
            assert(text@ =~= start + (row@ + seq![EMPTY, '\n']));
            assert(text@ + rendered(cells.skip(r + 1)) =~= start + rendered(cells.skip(r as int)));
        }
        r += 1;
    }
    assert(text@ + rendered(cells.skip(r as int)) =~= text@);
    text
}

} // verus!
