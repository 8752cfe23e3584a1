//! Rendering a grid as an aligned, parenthesized block of text.

use vstd::prelude::*;
use vstd::string::*;
use vstd::utf8::*;
use crate::grid::{row_view, rows_view, Grid};
use crate::text::byte_len;

verus! {

/// The number of columns of `rows`: the length of the longest row.
pub open spec fn column_count(rows: Seq<Seq<Seq<char>>>) -> int
    decreases rows.len(),
{
    if rows.len() == 0 {
        0
    } else {
        let before = column_count(rows.drop_last());
        if rows.last().len() > before {
            rows.last().len() as int
        } else {
            before
        }
    }
}

/// The number of blank cells that a row of `len` cells lacks to fill
/// `columns` columns.
pub open spec fn fill(columns: int, len: int) -> int {
    if columns > len {
        columns - len
    } else {
        0
    }
}

/// The blank cells that stand to the left of a row of `len` cells centred
/// in `columns` columns. An odd one out stands here.
pub open spec fn left_fill(columns: int, len: int) -> int {
    fill(columns, len) - fill(columns, len) / 2
}

/// The blank cells that stand to the right of a row of `len` cells centred
/// in `columns` columns.
pub open spec fn right_fill(columns: int, len: int) -> int {
    fill(columns, len) / 2
}

/// `n` blank cells.
pub open spec fn blanks(n: int) -> Seq<Seq<char>> {
    Seq::new(n as nat, |i: int| Seq::<char>::empty())
}

/// `row` centred in `columns` columns.
pub open spec fn pad_row(row: Seq<Seq<char>>, columns: int) -> Seq<Seq<char>> {
    blanks(left_fill(columns, row.len() as int)) + row + blanks(
        right_fill(columns, row.len() as int),
    )
}

/// `rows` with every row centred in the columns of the longest.
pub open spec fn pad_rows(rows: Seq<Seq<Seq<char>>>) -> Seq<Seq<Seq<char>>> {
    Seq::new(rows.len(), |r: int| pad_row(rows[r], column_count(rows)))
}

/// No row is longer than the column count, and a row exists that is as long,
/// unless there is no row.
pub proof fn lemma_column_count(rows: Seq<Seq<Seq<char>>>)
    ensures
        forall|r: int| 0 <= r < rows.len() ==> (#[trigger] rows[r]).len() <= column_count(rows),
        rows.len() == 0 ==> column_count(rows) == 0,
        rows.len() > 0 ==> exists|r: int|
            0 <= r < rows.len() && (#[trigger] rows[r]).len() == column_count(rows),
    decreases rows.len(),
{
    if rows.len() > 0 {
        lemma_column_count(rows.drop_last());
        let before = rows.drop_last();
        assert forall|r: int| 0 <= r < rows.len() implies (#[trigger] rows[r]).len()
            <= column_count(rows) by {
            if r < rows.len() - 1 {
                assert(before[r] == rows[r]);
            }
        }
        if rows.last().len() <= column_count(before) && before.len() > 0 {
            let r = choose|r: int|
                0 <= r < before.len() && (#[trigger] before[r]).len() == column_count(before);
            assert(rows[r].len() == column_count(rows));
        }
    }
}

/// The number of columns of `rows`.
pub fn count_columns(rows: &Vec<Vec<String>>) -> (n: usize)
    ensures
        n == column_count(rows_view(*rows)),
{
    let mut n: usize = 0;
    let mut r: usize = 0;
    while r < rows.len()
        invariant
            r <= rows@.len(),
            n == column_count(rows_view(*rows).take(r as int)),
        decreases rows@.len() - r,
    {
        assert(rows_view(*rows).take(r + 1).drop_last() =~= rows_view(*rows).take(r as int));
        if rows[r].len() > n {
            n = rows[r].len();
        }
        r += 1;
    }
    assert(rows_view(*rows).take(r as int) =~= rows_view(*rows));
    n
}

/// Appends `n` blank cells to `row`.
fn push_blanks(row: &mut Vec<String>, n: usize)
    ensures
        row_view(*final(row)) == row_view(*old(row)) + blanks(n as int),
{
    let mut i: usize = 0;
    while i < n
        invariant
            i <= n,
            row_view(*row) == row_view(*old(row)) + blanks(i as int),
        decreases n - i,
    {
        let ghost before = *row;
        row.push(String::new());
        assert(row_view(*row) =~= row_view(before).push(Seq::<char>::empty()));
        i += 1;
    }
}

/// Centres `row` in `columns` columns: blank cells are added on both sides
/// in equal number, and an odd one out goes to the left. A row that is
/// already as long is left as it is.
pub fn centre_row(row: &Vec<String>, columns: usize) -> (r: Vec<String>)
    ensures
        row_view(r) == pad_row(row_view(*row), columns as int),
{
    let fill: usize = if columns > row.len() {
        columns - row.len()
    } else {
        0
    };
    let right: usize = fill / 2;
    let left: usize = fill - right;
    let mut out: Vec<String> = Vec::new();
    push_blanks(&mut out, left);
    let mut c: usize = 0;
    while c < row.len()
        invariant
            c <= row@.len(),
            row_view(out) == blanks(left as int) + row_view(*row).take(c as int),
        decreases row@.len() - c,
    {
        let ghost before = out;
        out.push(row[c].clone());
        assert(row_view(out) =~= row_view(before).push(row@[c as int]@));
        c += 1;
    }
    push_blanks(&mut out, right);
    out
}

/// Centres every row of `rows` in the columns of the longest.
pub fn centre_rows(rows: &Vec<Vec<String>>) -> (r: Vec<Vec<String>>)
    ensures
        rows_view(r) == pad_rows(rows_view(*rows)),
{
    let columns = count_columns(rows);
    let mut out: Vec<Vec<String>> = Vec::new();
    let mut i: usize = 0;
    while i < rows.len()
        invariant
            i <= rows@.len(),
            columns == column_count(rows_view(*rows)),
            out@.len() == i,
            forall|k: int|
                0 <= k < i ==> #[trigger] row_view(out@[k]) == pad_row(
                    rows_view(*rows)[k],
                    columns as int,
                ),
        decreases rows@.len() - i,
    {
        out.push(centre_row(&rows[i], columns));
        i += 1;
    }
    out
}

/// Column symmetry. Centring gives every row the length of the longest.
/// Row `r` then stands between blank cells: on its right half of what it
/// lacked, rounded down, and on its left the same number and the odd one out.
pub proof fn lemma_column_symmetry(rows: Seq<Seq<Seq<char>>>, r: int)
    requires
        0 <= r < rows.len(),
    ensures
        ({
            let n = column_count(rows);
            let m = rows[r].len() as int;
            let padded = pad_rows(rows)[r];
            let right = (n - m) / 2;
            let left = (n - m) / 2 + (n - m) % 2;
            &&& m <= n
            &&& padded.len() == n
            &&& forall|c: int| 0 <= c < left ==> (#[trigger] padded[c]).len() == 0
            &&& forall|c: int| 0 <= c < m ==> #[trigger] padded[left + c] == rows[r][c]
            &&& forall|c: int| 0 <= c < right ==> (#[trigger] padded[left + m + c]).len() == 0
        }),
{
    lemma_column_count(rows);
}

/// Column symmetry for two rows: under a longer row, the shorter one is
/// centred, and where the difference is odd it stands one column nearer to
/// the right.
pub proof fn lemma_column_symmetry_pair(long: Seq<Seq<char>>, short: Seq<Seq<char>>)
    requires
        long.len() > short.len(),
    ensures
        ({
            let n = long.len() as int;
            let m = short.len() as int;
            pad_rows(seq![long, short]) == seq![
                long,
                blanks((n - m) / 2 + (n - m) % 2) + short + blanks((n - m) / 2),
            ]
        }),
{
    let rows = seq![long, short];
    assert(rows.drop_last() =~= seq![long]);
    assert(column_count(seq![long]) == long.len()) by {
        assert(column_count(seq![long].drop_last()) == 0);
    }
    assert(pad_rows(rows) =~= seq![
        long,
        blanks((long.len() - short.len()) / 2 + (long.len() - short.len()) % 2) + short + blanks(
            (long.len() - short.len()) / 2,
        ),
    ]);
}

/// The width of a cell: the number of bytes of its text.
pub open spec fn cell_width(cell: Seq<char>) -> int {
    encode_utf8(cell).len() as int
}

/// The width of column `c` of `rows`: that of its widest cell. A row that
/// does not reach the column counts as blank there.
pub open spec fn column_width(rows: Seq<Seq<Seq<char>>>, c: int) -> int
    decreases rows.len(),
{
    if rows.len() == 0 {
        0
    } else {
        let before = column_width(rows.drop_last(), c);
        let here = if 0 <= c < rows.last().len() {
            cell_width(rows.last()[c])
        } else {
            0
        };
        if here > before {
            here
        } else {
            before
        }
    }
}

/// The widths of the first `columns` columns of `rows`.
pub open spec fn column_widths(rows: Seq<Seq<Seq<char>>>, columns: int) -> Seq<int> {
    Seq::new(columns as nat, |c: int| column_width(rows, c))
}

/// The widths of executable columns.
pub open spec fn widths_view(widths: Vec<usize>) -> Seq<int> {
    Seq::new(widths@.len(), |c: int| widths@[c] as int)
}

/// The width of column `c` of `rows`.
pub fn measure_column(rows: &Vec<Vec<String>>, c: usize) -> (w: usize)
    ensures
        w == column_width(rows_view(*rows), c as int),
{
    let mut w: usize = 0;
    let mut r: usize = 0;
    while r < rows.len()
        invariant
            r <= rows@.len(),
            w == column_width(rows_view(*rows).take(r as int), c as int),
        decreases rows@.len() - r,
    {
        assert(rows_view(*rows).take(r + 1).drop_last() =~= rows_view(*rows).take(r as int));
        let row = &rows[r];
        if c < row.len() {
            let here = byte_len(row[c].as_str());
            if here > w {
                w = here;
            }
        }
        r += 1;
    }
    assert(rows_view(*rows).take(r as int) =~= rows_view(*rows));
    w
}

/// The widths of the first `columns` columns of `rows`.
pub fn measure_columns(rows: &Vec<Vec<String>>, columns: usize) -> (widths: Vec<usize>)
    ensures
        widths_view(widths) == column_widths(rows_view(*rows), columns as int),
{
    let mut widths: Vec<usize> = Vec::new();
    let mut c: usize = 0;
    while c < columns
        invariant
            c <= columns,
            widths@.len() == c,
            forall|k: int| 0 <= k < c ==> widths@[k] == column_width(rows_view(*rows), k),
        decreases columns - c,
    {
        widths.push(measure_column(rows, c));
        c += 1;
    }
    widths
}

/// `n` spaces; none if `n` is not positive.
pub open spec fn spaces(n: int) -> Seq<char> {
    if n > 0 {
        Seq::new(n as nat, |i: int| ' ')
    } else {
        Seq::empty()
    }
}

/// `cell` followed by the spaces that it lacks to be `width` characters long.
pub open spec fn pad_right(cell: Seq<char>, width: int) -> Seq<char> {
    cell + spaces(width - cell.len())
}

/// The length of `row` without the blank cells at its end.
pub open spec fn filled_len(row: Seq<Seq<char>>) -> int
    decreases row.len(),
{
    if row.len() == 0 {
        0
    } else if row.last().len() > 0 {
        row.len() as int
    } else {
        filled_len(row.drop_last())
    }
}

/// The width of column `c`, where `widths` holds one; else zero.
pub open spec fn width_at(widths: Seq<int>, c: int) -> int {
    if 0 <= c < widths.len() {
        widths[c]
    } else {
        0
    }
}

/// What cell `c` of `row` adds to its line: the gap, if the cell stands in
/// column `gap_at`; then its text, which is padded to the width of its column
/// and followed by a space unless it is the last cell that is not blank.
pub open spec fn render_cell(
    row: Seq<Seq<char>>,
    widths: Seq<int>,
    gap_at: int,
    gap: int,
    c: int,
) -> Seq<char> {
    let lead = if c == gap_at {
        spaces(gap)
    } else {
        Seq::empty()
    };
    if c + 1 < filled_len(row) {
        lead + pad_right(row[c], width_at(widths, c)) + seq![' ']
    } else {
        lead + row[c]
    }
}

/// What the first `upto` cells of `row` add to its line.
pub open spec fn render_cells(
    row: Seq<Seq<char>>,
    widths: Seq<int>,
    gap_at: int,
    gap: int,
    upto: int,
) -> Seq<char>
    decreases upto,
{
    if upto <= 0 {
        Seq::empty()
    } else {
        render_cells(row, widths, gap_at, gap, upto - 1) + render_cell(
            row,
            widths,
            gap_at,
            gap,
            upto - 1,
        )
    }
}

/// The cells of `row` as they stand on its line. Blank cells at the end of
/// the row add nothing, so the line has no trailing space.
pub open spec fn render_row(row: Seq<Seq<char>>, widths: Seq<int>, gap_at: int, gap: int) -> Seq<
    char,
> {
    render_cells(row, widths, gap_at, gap, filled_len(row))
}

/// The length of `row` without the blank cells at its end.
pub fn count_filled(row: &Vec<String>) -> (n: usize)
    ensures
        n == filled_len(row_view(*row)),
        n <= row@.len(),
{
    let mut n: usize = row.len();
    assert(row_view(*row).take(n as int) =~= row_view(*row));
    while n > 0 && row[n - 1].as_str().is_empty()
        invariant
            n <= row@.len(),
            filled_len(row_view(*row).take(n as int)) == filled_len(row_view(*row)),
        decreases n,
    {
        assert(row_view(*row).take(n as int).drop_last() =~= row_view(*row).take(n - 1));
        n -= 1;
    }
    n
}

/// Appends `n` spaces to `out`.
pub fn push_spaces(out: &mut String, n: usize)
    ensures
        final(out)@ == old(out)@ + spaces(n as int),
{
    let mut i: usize = 0;
    while i < n
        invariant
            i <= n,
            out@ == old(out)@ + spaces(i as int),
        decreases n - i,
    {
        proof {
            reveal_strlit(" ");
        }
        out.append(" ");
        i += 1;
    }
}

/// Appends the cells of `row` to `out` as they stand on its line, with
/// `gap` more spaces before column `gap_at`.
pub fn write_row(out: &mut String, row: &Vec<String>, widths: &Vec<usize>, gap_at: usize, gap: usize)
    ensures
        final(out)@ == old(out)@ + render_row(
            row_view(*row),
            widths_view(*widths),
            gap_at as int,
            gap as int,
        ),
{
    let shown = count_filled(row);
    let ghost cells = row_view(*row);
    let ghost w = widths_view(*widths);
    let mut c: usize = 0;
    while c < shown
        invariant
            c <= shown <= row@.len(),
            shown == filled_len(row_view(*row)),
            cells == row_view(*row),
            w == widths_view(*widths),
            out@ == old(out)@ + render_cells(cells, w, gap_at as int, gap as int, c as int),
        decreases shown - c,
    {
        if c == gap_at {
            push_spaces(out, gap);
        }
        let cell = row[c].as_str();
        out.append(cell);
        if c + 1 < shown {
            let width = if c < widths.len() {
                widths[c]
            } else {
                0
            };
            let len = cell.unicode_len();
            if width > len {
                push_spaces(out, width - len);
            }
            proof {
                reveal_strlit(" ");
            }
            out.append(" ");
        }
        c += 1;
    }
}

/// The line of `row`: the indentation twice, the cells, a line feed.
pub open spec fn render_line(
    row: Seq<Seq<char>>,
    widths: Seq<int>,
    gap_at: int,
    gap: int,
    indent: Seq<char>,
) -> Seq<char> {
    indent + indent + render_row(row, widths, gap_at, gap) + seq!['\n']
}

/// The lines of the first `upto` of `rows`.
pub open spec fn render_lines(
    rows: Seq<Seq<Seq<char>>>,
    widths: Seq<int>,
    gap_at: int,
    gap: int,
    indent: Seq<char>,
    upto: int,
) -> Seq<char>
    decreases upto,
{
    if upto <= 0 {
        Seq::empty()
    } else {
        render_lines(rows, widths, gap_at, gap, indent, upto - 1) + render_line(
            rows[upto - 1],
            widths,
            gap_at,
            gap,
            indent,
        )
    }
}

/// The block of `grid`: an opening parenthesis; a line for each row, with
/// the rows centred, the columns aligned and `gap` more spaces before the
/// middle column; the closing parenthesis, indented as the invocation is.
pub open spec fn render_block(grid: Seq<Seq<Seq<char>>>, indent: Seq<char>, gap: int) -> Seq<char> {
    let columns = column_count(grid);
    let rows = pad_rows(grid);
    let widths = column_widths(rows, columns);
    seq!['(', '\n'] + render_lines(rows, widths, columns / 2, gap, indent, rows.len() as int)
        + indent + seq![')']
}

/// Renders `grid` as a block of text for an invocation whose line is
/// indented by `indent`.
pub fn render_grid(grid: &Grid, indent: &str, gap: usize) -> (out: String)
    ensures
        out@ == render_block(grid@, indent@, gap as int),
{
    let columns = count_columns(grid.rows());
    let rows = centre_rows(grid.rows());
    let widths = measure_columns(&rows, columns);
    let gap_at = columns / 2;
    let ghost padded = rows_view(rows);
    let ghost w = widths_view(widths);
    let mut out = String::new();
    proof {
        reveal_strlit("(\n");
        reveal_strlit(")");
    }
    out.append("(\n");
    let mut r: usize = 0;
    while r < rows.len()
        invariant
            r <= rows@.len(),
            padded == rows_view(rows),
            w == widths_view(widths),
            out@ == seq!['(', '\n'] + render_lines(
                padded,
                w,
                gap_at as int,
                gap as int,
                indent@,
                r as int,
            ),
        decreases rows@.len() - r,
    {
        out.append(indent);
        out.append(indent);
        write_row(&mut out, &rows[r], &widths, gap_at, gap);
        proof {
            reveal_strlit("\n");
        }
        out.append("\n");
        r += 1;
    }
    out.append(indent);
    out.append(")");
    out
}

} // verus!
