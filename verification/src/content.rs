//! What rendering keeps: the text of the cells, in their order.
//!
//! Rendering adds spaces, line feeds and indentation, and nothing else. So a
//! block without its white space is the cells without theirs, between
//! parentheses: no argument is lost, changed or moved.

use vstd::prelude::*;
use crate::render::{
    blanks, column_count, column_widths, filled_len, left_fill, pad_right, pad_row, pad_rows,
    render_block, render_cell, render_cells, render_line, render_lines, render_row, right_fill,
    spaces, width_at,
};

verus! {

/// `text` without the characters that `blank` holds.
pub open spec fn ink(text: Seq<char>, blank: spec_fn(char) -> bool) -> Seq<char>
    decreases text.len(),
{
    if text.len() == 0 {
        Seq::empty()
    } else {
        let before = ink(text.drop_last(), blank);
        if blank(text.last()) {
            before
        } else {
            before.push(text.last())
        }
    }
}

/// `blank` holds every character of `text`.
pub open spec fn all_blank(text: Seq<char>, blank: spec_fn(char) -> bool) -> bool {
    forall|i: int| 0 <= i < text.len() ==> blank(#[trigger] text[i])
}

/// The text of the first `upto` cells of `row`, one after the other.
pub open spec fn cells_text(row: Seq<Seq<char>>, upto: int) -> Seq<char>
    decreases upto,
{
    if upto <= 0 {
        Seq::empty()
    } else {
        cells_text(row, upto - 1) + row[upto - 1]
    }
}

/// The text of the cells of the first `upto` rows of `grid`, one after the
/// other.
pub open spec fn grid_text(grid: Seq<Seq<Seq<char>>>, upto: int) -> Seq<char>
    decreases upto,
{
    if upto <= 0 {
        Seq::empty()
    } else {
        grid_text(grid, upto - 1) + cells_text(grid[upto - 1], grid[upto - 1].len() as int)
    }
}

/// What is left of two texts, one after the other, is what is left of the
/// first followed by what is left of the second.
pub proof fn lemma_ink_concat(a: Seq<char>, b: Seq<char>, blank: spec_fn(char) -> bool)
    ensures
        ink(a + b, blank) == ink(a, blank) + ink(b, blank),
    decreases b.len(),
{
    if b.len() > 0 {
        lemma_ink_concat(a, b.drop_last(), blank);
        assert((a + b).drop_last() =~= a + b.drop_last());
    }
}

/// Of a single character, the character is left unless it is white space.
proof fn lemma_ink_one(c: char, blank: spec_fn(char) -> bool)
    ensures
        ink(seq![c], blank) == if blank(c) {
            Seq::<char>::empty()
        } else {
            seq![c]
        },
{
    assert(ink(seq![c].drop_last(), blank) =~= Seq::<char>::empty());
}

/// Nothing is left of a text that is all white space.
pub proof fn lemma_ink_blank(text: Seq<char>, blank: spec_fn(char) -> bool)
    requires
        all_blank(text, blank),
    ensures
        ink(text, blank) == Seq::<char>::empty(),
    decreases text.len(),
{
    if text.len() > 0 {
        assert forall|i: int| 0 <= i < text.drop_last().len() implies blank(
            #[trigger] text.drop_last()[i],
        ) by {
            assert(text.drop_last()[i] == text[i]);
        }
        lemma_ink_blank(text.drop_last(), blank);
    }
}

/// A cell as it stands on its line keeps its text and gains white space only.
proof fn lemma_ink_cell(
    row: Seq<Seq<char>>,
    widths: Seq<int>,
    gap_at: int,
    gap: int,
    c: int,
    blank: spec_fn(char) -> bool,
)
    requires
        blank(' '),
    ensures
        ink(render_cell(row, widths, gap_at, gap, c), blank) == ink(row[c], blank),
{
    let lead = if c == gap_at {
        spaces(gap)
    } else {
        Seq::empty()
    };
    lemma_ink_blank(lead, blank);
    if c + 1 < filled_len(row) {
        let width = width_at(widths, c);
        let fill = spaces(width - row[c].len());
        lemma_ink_blank(fill, blank);
        lemma_ink_blank(seq![' '], blank);
        lemma_ink_concat(lead, pad_right(row[c], width), blank);
        lemma_ink_concat(row[c], fill, blank);
        lemma_ink_concat(lead + pad_right(row[c], width), seq![' '], blank);
    } else {
        lemma_ink_concat(lead, row[c], blank);
    }
}

/// The first cells of a row as they stand on its line keep their text and
/// gain white space only.
proof fn lemma_ink_cells(
    row: Seq<Seq<char>>,
    widths: Seq<int>,
    gap_at: int,
    gap: int,
    upto: int,
    blank: spec_fn(char) -> bool,
)
    requires
        blank(' '),
    ensures
        ink(render_cells(row, widths, gap_at, gap, upto), blank) == ink(
            cells_text(row, upto),
            blank,
        ),
    decreases upto,
{
    if upto > 0 {
        lemma_ink_cells(row, widths, gap_at, gap, upto - 1, blank);
        lemma_ink_cell(row, widths, gap_at, gap, upto - 1, blank);
        lemma_ink_concat(
            render_cells(row, widths, gap_at, gap, upto - 1),
            render_cell(row, widths, gap_at, gap, upto - 1),
            blank,
        );
        lemma_ink_concat(cells_text(row, upto - 1), row[upto - 1], blank);
    }
}

/// The blank cells at the end of a row add nothing to its text.
proof fn lemma_filled_text(row: Seq<Seq<char>>, upto: int)
    requires
        0 <= upto <= row.len(),
    ensures
        0 <= filled_len(row.take(upto)) <= upto,
        cells_text(row, filled_len(row.take(upto))) == cells_text(row, upto),
    decreases upto,
{
    if upto > 0 {
        let part = row.take(upto);
        if part.last().len() == 0 {
            assert(part.drop_last() =~= row.take(upto - 1));
            lemma_filled_text(row, upto - 1);
        }
    }
}

/// The text of cells that follow one another is the text of the first
/// followed by that of the second.
proof fn lemma_cells_text_concat(a: Seq<Seq<char>>, b: Seq<Seq<char>>, upto: int)
    requires
        0 <= upto <= b.len(),
    ensures
        cells_text(a + b, a.len() + upto) == cells_text(a, a.len() as int) + cells_text(b, upto),
    decreases upto,
{
    if upto == 0 {
        lemma_cells_text_same(a + b, a, a.len() as int);
        assert(cells_text(a, a.len() as int) + Seq::<char>::empty() =~= cells_text(
            a,
            a.len() as int,
        ));
    } else {
        lemma_cells_text_concat(a, b, upto - 1);
        assert(cells_text(a + b, a.len() + upto) =~= cells_text(a, a.len() as int) + cells_text(
            b,
            upto,
        ));
    }
}

/// Rows that agree in their first cells agree in the text of these.
proof fn lemma_cells_text_same(a: Seq<Seq<char>>, b: Seq<Seq<char>>, upto: int)
    requires
        0 <= upto <= a.len(),
        upto <= b.len(),
        forall|i: int| 0 <= i < upto ==> a[i] == b[i],
    ensures
        cells_text(a, upto) == cells_text(b, upto),
    decreases upto,
{
    if upto > 0 {
        lemma_cells_text_same(a, b, upto - 1);
    }
}

/// Blank cells have no text.
proof fn lemma_blanks_text(n: int, upto: int)
    requires
        0 <= upto <= n,
    ensures
        cells_text(blanks(n), upto) == Seq::<char>::empty(),
    decreases upto,
{
    if upto > 0 {
        lemma_blanks_text(n, upto - 1);
    }
}

/// Centring a row does not change its text.
proof fn lemma_pad_row_text(row: Seq<Seq<char>>, columns: int)
    ensures
        cells_text(pad_row(row, columns), pad_row(row, columns).len() as int) == cells_text(
            row,
            row.len() as int,
        ),
{
    let left = blanks(left_fill(columns, row.len() as int));
    let right = blanks(right_fill(columns, row.len() as int));
    lemma_cells_text_concat(left + row, right, right.len() as int);
    lemma_cells_text_concat(left, row, row.len() as int);
    lemma_blanks_text(left.len() as int, left.len() as int);
    lemma_blanks_text(right.len() as int, right.len() as int);
    assert(Seq::<char>::empty() + cells_text(row, row.len() as int) + Seq::<char>::empty()
        =~= cells_text(row, row.len() as int));
}

/// The line of a centred row keeps the text of the row and gains white
/// space only.
proof fn lemma_ink_line(
    row: Seq<Seq<char>>,
    columns: int,
    widths: Seq<int>,
    gap: int,
    indent: Seq<char>,
    blank: spec_fn(char) -> bool,
)
    requires
        blank(' '),
        blank('\n'),
        all_blank(indent, blank),
    ensures
        ink(render_line(pad_row(row, columns), widths, columns / 2, gap, indent), blank) == ink(
            cells_text(row, row.len() as int),
            blank,
        ),
{
    let padded = pad_row(row, columns);
    let cells = render_row(padded, widths, columns / 2, gap);
    assert(padded.take(padded.len() as int) =~= padded);
    lemma_filled_text(padded, padded.len() as int);
    lemma_ink_cells(padded, widths, columns / 2, gap, filled_len(padded), blank);
    lemma_pad_row_text(row, columns);
    lemma_ink_blank(indent, blank);
    lemma_ink_blank(seq!['\n'], blank);
    lemma_ink_concat(indent, indent, blank);
    lemma_ink_concat(indent + indent, cells, blank);
    lemma_ink_concat(indent + indent + cells, seq!['\n'], blank);
    assert(ink(render_line(padded, widths, columns / 2, gap, indent), blank) =~= ink(
        cells,
        blank,
    ));
}

/// The lines of the first rows of a grid keep the text of these rows and
/// gain white space only.
proof fn lemma_ink_lines(
    grid: Seq<Seq<Seq<char>>>,
    gap: int,
    indent: Seq<char>,
    upto: int,
    blank: spec_fn(char) -> bool,
)
    requires
        blank(' '),
        blank('\n'),
        all_blank(indent, blank),
        0 <= upto <= grid.len(),
    ensures
        ink(
            render_lines(
                pad_rows(grid),
                column_widths(pad_rows(grid), column_count(grid)),
                column_count(grid) / 2,
                gap,
                indent,
                upto,
            ),
            blank,
        ) == ink(grid_text(grid, upto), blank),
    decreases upto,
{
    if upto > 0 {
        let columns = column_count(grid);
        let rows = pad_rows(grid);
        let widths = column_widths(rows, columns);
        lemma_ink_lines(grid, gap, indent, upto - 1, blank);
        lemma_ink_line(grid[upto - 1], columns, widths, gap, indent, blank);
        lemma_ink_concat(
            render_lines(rows, widths, columns / 2, gap, indent, upto - 1),
            render_line(rows[upto - 1], widths, columns / 2, gap, indent),
            blank,
        );
        lemma_ink_concat(
            grid_text(grid, upto - 1),
            cells_text(grid[upto - 1], grid[upto - 1].len() as int),
            blank,
        );
    }
}

/// Rendering changes white space only. Take for white space any characters
/// that include the space, the line feed and every character of the
/// indentation, but no parenthesis. Then the block of a grid without its
/// white space is the text of the cells, in their order and without theirs,
/// between parentheses.
pub proof fn lemma_rendering_keeps_cells(
    grid: Seq<Seq<Seq<char>>>,
    indent: Seq<char>,
    gap: int,
    blank: spec_fn(char) -> bool,
)
    requires
        blank(' '),
        blank('\n'),
        !blank('('),
        !blank(')'),
        all_blank(indent, blank),
    ensures
        ink(render_block(grid, indent, gap), blank) == seq!['('] + ink(
            grid_text(grid, grid.len() as int),
            blank,
        ) + seq![')'],
{
    let columns = column_count(grid);
    let rows = pad_rows(grid);
    let widths = column_widths(rows, columns);
    let lines = render_lines(rows, widths, columns / 2, gap, indent, rows.len() as int);
    lemma_ink_lines(grid, gap, indent, grid.len() as int, blank);
    lemma_ink_blank(indent, blank);
    lemma_ink_concat(seq!['(', '\n'], lines, blank);
    lemma_ink_concat(seq!['(', '\n'] + lines, indent, blank);
    lemma_ink_concat(seq!['(', '\n'] + lines + indent, seq![')'], blank);
    lemma_ink_one('(', blank);
    lemma_ink_one(')', blank);
    lemma_ink_one('\n', blank);
    lemma_ink_concat(seq!['('], seq!['\n'], blank);
    assert(seq!['('] + seq!['\n'] =~= seq!['(', '\n']);
}

} // verus!
