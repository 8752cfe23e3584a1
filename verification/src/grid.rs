//! The grid of one layout invocation: its arguments grouped by source line.

use vstd::prelude::*;
use vstd::string::*;
use crate::error::Error;
use crate::span::SyntaxSpan;
use crate::text::{slice, span_error};

verus! {

/// The cells of one invocation, row by row. A cell is the text of one
/// argument followed by a comma, except for the last argument, which has none.
#[derive(Debug, PartialEq, Eq)]
pub struct Grid {
    rows: Vec<Vec<String>>,
}

/// The cells of an executable row.
pub open spec fn row_view(row: Vec<String>) -> Seq<Seq<char>> {
    Seq::new(row@.len(), |c: int| row@[c]@)
}

/// The cells of executable rows.
pub open spec fn rows_view(rows: Vec<Vec<String>>) -> Seq<Seq<Seq<char>>> {
    Seq::new(rows@.len(), |r: int| row_view(rows@[r]))
}

/// What every grid satisfies: it has a row, and its first and last rows
/// hold a cell.
pub open spec fn grid_wf(rows: Seq<Seq<Seq<char>>>) -> bool {
    &&& rows.len() > 0
    &&& rows.first().len() > 0
    &&& rows.last().len() > 0
}

impl View for Grid {
    type V = Seq<Seq<Seq<char>>>;

    closed spec fn view(&self) -> Seq<Seq<Seq<char>>> {
        rows_view(self.rows)
    }
}

/// A copy of `row`.
fn clone_row(row: &Vec<String>) -> (r: Vec<String>)
    ensures
        row_view(r) == row_view(*row),
{
    let mut out: Vec<String> = Vec::new();
    let mut c: usize = 0;
    while c < row.len()
        invariant
            c <= row@.len(),
            out@.len() == c,
            forall|k: int| 0 <= k < c ==> out@[k]@ == row@[k]@,
        decreases row@.len() - c,
    {
        out.push(row[c].clone());
        c += 1;
    }
    out
}

/// A copy of `rows`.
fn clone_rows(rows: &Vec<Vec<String>>) -> (r: Vec<Vec<String>>)
    ensures
        rows_view(r) == rows_view(*rows),
{
    let mut out: Vec<Vec<String>> = Vec::new();
    let mut i: usize = 0;
    while i < rows.len()
        invariant
            i <= rows@.len(),
            out@.len() == i,
            forall|k: int| 0 <= k < i ==> row_view(out@[k]) == row_view(rows@[k]),
        decreases rows@.len() - i,
    {
        out.push(clone_row(&rows[i]));
        i += 1;
    }
    out
}

impl Clone for Grid {
    fn clone(&self) -> (r: Self)
        ensures
            r@ == self@,
    {
        proof {
            use_type_invariant(self);
        }
        Grid { rows: clone_rows(&self.rows) }
    }
}

impl Grid {
    #[verifier::type_invariant]
    spec fn inv(self) -> bool {
        grid_wf(self@)
    }

    /// A grid with the given rows, if they may form one.
    pub fn from_rows(rows: Vec<Vec<String>>) -> (r: Result<Grid, Error>)
        ensures
            r is Ok <==> grid_wf(rows_view(rows)),
            r matches Ok(g) ==> g@ == rows_view(rows),
            r matches Err(e) ==> e == Error::EmptyGrid,
    {
        let n = rows.len();
        if n == 0 || rows[0].len() == 0 || rows[n - 1].len() == 0 {
            return Err(Error::EmptyGrid);
        }
        Ok(Grid { rows })
    }

    /// The rows of the grid.
    pub fn rows(&self) -> (r: &Vec<Vec<String>>)
        ensures
            rows_view(*r) == self@,
            grid_wf(self@),
    {
        proof {
            use_type_invariant(self);
        }
        &self.rows
    }
}

/// The text of the `i`th of `keys` as a cell.
pub open spec fn cell_of(text: Seq<char>, keys: Seq<SyntaxSpan>, i: int) -> Seq<char> {
    keys[i].text_in(text) + if i + 1 == keys.len() {
        Seq::<char>::empty()
    } else {
        seq![',']
    }
}

/// The cells of `keys`, in their order.
pub open spec fn cells_of(text: Seq<char>, keys: Seq<SyntaxSpan>) -> Seq<Seq<char>> {
    Seq::new(keys.len(), |i: int| cell_of(text, keys, i))
}

/// The source lines on which `keys` start, in their order.
pub open spec fn lines_of(keys: Seq<SyntaxSpan>) -> Seq<int> {
    Seq::new(keys.len(), |i: int| keys[i].start_row as int)
}

/// Those of `cells` that stand on `line`, in their order.
pub open spec fn cells_on_line(cells: Seq<Seq<char>>, lines: Seq<int>, line: int) -> Seq<Seq<char>>
    decreases cells.len(),
{
    if cells.len() == 0 {
        Seq::empty()
    } else {
        let before = cells_on_line(cells.drop_last(), lines.drop_last(), line);
        if lines.last() == line {
            before.push(cells.last())
        } else {
            before
        }
    }
}

/// The grid of `cells`: one row for each line from the first that holds a
/// cell to the last that does, each with the cells of its line.
pub open spec fn arrange(cells: Seq<Seq<char>>, lines: Seq<int>) -> Seq<Seq<Seq<char>>> {
    Seq::new(
        (lines.max() - lines.min() + 1) as nat,
        |r: int| cells_on_line(cells, lines, lines.min() + r),
    )
}

/// The index of the first of `keys` whose span does not cover text of
/// `text`, or the number of keys if there is none.
pub open spec fn first_bad_key(text: Seq<char>, keys: Seq<SyntaxSpan>) -> int
    decreases keys.len(),
{
    if keys.len() == 0 || !keys[0].is_text(text) {
        0
    } else {
        1 + first_bad_key(text, keys.drop_first())
    }
}

/// What building the grid of `keys` in `text` gives: no grid where there
/// is no key; else the error of the first key that does not cover text;
/// else the arrangement of their cells.
pub open spec fn grid_result(text: Seq<char>, keys: Seq<SyntaxSpan>) -> Result<
    Seq<Seq<Seq<char>>>,
    Error,
> {
    if keys.len() == 0 {
        Err(Error::EmptyGrid)
    } else if first_bad_key(text, keys) < keys.len() {
        let bad = keys[first_bad_key(text, keys)];
        Err(span_error(text, bad.start_byte as int, bad.end_byte as int))
    } else {
        Ok(arrange(cells_of(text, keys), lines_of(keys)))
    }
}

/// The first bad key is one of the keys or their number, and is bad.
pub proof fn lemma_first_bad_key(text: Seq<char>, keys: Seq<SyntaxSpan>)
    ensures
        0 <= first_bad_key(text, keys) <= keys.len(),
        first_bad_key(text, keys) < keys.len() ==> !keys[first_bad_key(text, keys)].is_text(text),
        forall|i: int| 0 <= i < first_bad_key(text, keys) ==> (#[trigger] keys[i]).is_text(text),
    decreases keys.len(),
{
    if keys.len() > 0 && keys[0].is_text(text) {
        let rest = keys.drop_first();
        lemma_first_bad_key(text, rest);
        assert forall|i: int| 0 <= i < first_bad_key(text, keys) implies (#[trigger] keys[i]).is_text(
            text,
        ) by {
            if i > 0 {
                assert(keys[i] == rest[i - 1]);
            }
        }
    }
}

/// Taking one more cell into account adds it to its line and to no other.
proof fn lemma_on_line_step(cells: Seq<Seq<char>>, lines: Seq<int>, line: int, i: int)
    requires
        cells.len() == lines.len(),
        0 <= i < cells.len(),
    ensures
        cells_on_line(cells.take(i + 1), lines.take(i + 1), line) == if lines[i] == line {
            cells_on_line(cells.take(i), lines.take(i), line).push(cells[i])
        } else {
            cells_on_line(cells.take(i), lines.take(i), line)
        },
{
    assert(cells.take(i + 1).drop_last() =~= cells.take(i));
    assert(lines.take(i + 1).drop_last() =~= lines.take(i));
}

/// The cells of a line among the first `k` cells begin the cells of that
/// line among all.
proof fn lemma_on_line_prefix(cells: Seq<Seq<char>>, lines: Seq<int>, line: int, k: int)
    requires
        cells.len() == lines.len(),
        0 <= k <= cells.len(),
    ensures
        cells_on_line(cells.take(k), lines.take(k), line).is_prefix_of(
            cells_on_line(cells, lines, line),
        ),
    decreases cells.len(),
{
    if k == cells.len() {
        assert(cells.take(k) =~= cells);
        assert(lines.take(k) =~= lines);
    } else {
        lemma_on_line_prefix(cells.drop_last(), lines.drop_last(), line, k);
        assert(cells.drop_last().take(k) =~= cells.take(k));
        assert(lines.drop_last().take(k) =~= lines.take(k));
    }
}

/// Builds the grid of the arguments `keys` of one invocation in `text`:
/// arguments that start on one source line share a row, in source order,
/// and the rows follow the lines from the first argument's to the last's.
pub fn key_rows(text: &str, keys: &[SyntaxSpan]) -> (r: Result<Grid, Error>)
    ensures
        r matches Ok(grid) ==> grid_result(text@, keys@) == Ok::<Seq<Seq<Seq<char>>>, Error>(grid@),
        r matches Err(e) ==> grid_result(text@, keys@) == Err::<Seq<Seq<Seq<char>>>, Error>(e),
{
    let n = keys.len();
    proof {
        lemma_first_bad_key(text@, keys@);
    }
    if n == 0 {
        return Err(Error::EmptyGrid);
    }
    let ghost cells = cells_of(text@, keys@);
    let ghost lines = lines_of(keys@);
    let mut min_row: usize = keys[0].start_row;
    let mut max_row: usize = keys[0].start_row;
    let mut i: usize = 1;
    while i < n
        invariant
            1 <= i <= n,
            n == keys@.len(),
            lines == lines_of(keys@),
            exists|j: int| 0 <= j < i && lines[j] == min_row,
            exists|j: int| 0 <= j < i && lines[j] == max_row,
            forall|j: int| 0 <= j < i ==> min_row <= #[trigger] lines[j] && lines[j] <= max_row,
        decreases n - i,
    {
        let row = keys[i].start_row;
        assert(lines[i as int] == row);
        if row < min_row {
            min_row = row;
        }
        if row > max_row {
            max_row = row;
        }
        i += 1;
    }
    proof {
        lines.min_ensures();
        lines.max_ensures();
    }

    let mut rows: Vec<Vec<String>> = Vec::new();
    rows.push(Vec::new());
    let mut r: usize = 0;
    while r < max_row - min_row
        invariant
            min_row <= max_row,
            r <= max_row - min_row,
            rows@.len() == r + 1,
            forall|k: int| 0 <= k <= r ==> rows@[k]@.len() == 0,
        decreases max_row - min_row - r,
    {
        rows.push(Vec::new());
        r += 1;
    }

    let mut i: usize = 0;
    while i < n
        invariant
            i <= n,
            n == keys@.len(),
            cells == cells_of(text@, keys@),
            lines == lines_of(keys@),
            min_row == lines.min(),
            max_row == lines.max(),
            rows@.len() == max_row - min_row + 1,
            forall|j: int| 0 <= j < n ==> min_row <= #[trigger] lines[j] && lines[j] <= max_row,
            forall|k: int|
                0 <= k < rows@.len() ==> #[trigger] row_view(rows@[k]) == cells_on_line(
                    cells.take(i as int),
                    lines.take(i as int),
                    min_row + k,
                ),
            first_bad_key(text@, keys@.take(i as int)) == i,
        decreases n - i,
    {
        let key = &keys[i];
        proof {
            lemma_first_bad_step(text@, keys@, i as int);
        }
        let s = match slice(text, key.start_byte, key.end_byte) {
            Ok(s) => s,
            Err(e) => {
                proof {
                    lemma_first_bad_found(text@, keys@, i as int);
                }
                return Err(e);
            },
        };
        let mut cell = s.to_owned();
        if i + 1 != n {
            proof {
                reveal_strlit(",");
            }
            cell.append(",");
        }
        assert(cell@ =~= cells[i as int]);
        assert(lines[i as int] == key.start_row);
        let at = key.start_row - min_row;
        let ghost before = rows;
        rows[at].push(cell);
        proof {
            assert forall|k: int| 0 <= k < rows@.len() implies #[trigger] row_view(rows@[k])
                == cells_on_line(cells.take(i + 1), lines.take(i + 1), min_row + k) by {
                lemma_on_line_step(cells, lines, min_row + k, i as int);
                if k == at {
                    assert(row_view(rows@[k]) =~= row_view(before@[k]).push(cells[i as int]));
                }
            }
        }
        i += 1;
    }
    proof {
        assert(cells.take(n as int) =~= cells);
        assert(lines.take(n as int) =~= lines);
        assert(keys@.take(n as int) =~= keys@);
        assert(rows_view(rows) =~= arrange(cells, lines));
        lemma_arrange_wf(cells, lines);
    }
    Ok(Grid { rows })
}

/// While the first `i` keys cover text, the first bad key among the first
/// `i + 1` is the `i`th or none.
proof fn lemma_first_bad_step(text: Seq<char>, keys: Seq<SyntaxSpan>, i: int)
    requires
        0 <= i < keys.len(),
        first_bad_key(text, keys.take(i)) == i,
    ensures
        first_bad_key(text, keys.take(i + 1)) == if keys[i].is_text(text) {
            i + 1
        } else {
            i
        },
    decreases i,
{
    if i == 0 {
        assert(first_bad_key(text, keys.take(1).drop_first()) == 0);
    } else {
        let rest = keys.drop_first();
        assert(keys.take(i).drop_first() =~= rest.take(i - 1));
        assert(keys.take(i + 1).drop_first() =~= rest.take(i));
        lemma_first_bad_step(text, rest, i - 1);
    }
}

/// A key that does not cover text, after keys that all do, is the first bad key.
proof fn lemma_first_bad_found(text: Seq<char>, keys: Seq<SyntaxSpan>, i: int)
    requires
        0 <= i < keys.len(),
        first_bad_key(text, keys.take(i)) == i,
        !keys[i].is_text(text),
    ensures
        first_bad_key(text, keys) == i,
    decreases i,
{
    if i > 0 {
        assert(keys.take(i).drop_first() =~= keys.drop_first().take(i - 1));
        lemma_first_bad_found(text, keys.drop_first(), i - 1);
    }
}

/// A line on which a cell stands has a cell.
proof fn lemma_line_holds(cells: Seq<Seq<char>>, lines: Seq<int>, j: int)
    requires
        cells.len() == lines.len(),
        0 <= j < cells.len(),
    ensures
        cells_on_line(cells, lines, lines[j]).len() > 0,
{
    lemma_on_line_step(cells, lines, lines[j], j);
    lemma_on_line_prefix(cells, lines, lines[j], j + 1);
}

/// The arrangement of at least one cell is a grid.
pub proof fn lemma_arrange_wf(cells: Seq<Seq<char>>, lines: Seq<int>)
    requires
        cells.len() == lines.len(),
        cells.len() > 0,
    ensures
        grid_wf(arrange(cells, lines)),
{
    lines.min_ensures();
    lines.max_ensures();
    let a = choose|j: int| 0 <= j < lines.len() && lines[j] == lines.min();
    let b = choose|j: int| 0 <= j < lines.len() && lines[j] == lines.max();
    lemma_line_holds(cells, lines, a);
    lemma_line_holds(cells, lines, b);
}

/// How many cells stand before the `i`th on its line.
pub open spec fn place_on_line(cells: Seq<Seq<char>>, lines: Seq<int>, i: int) -> int {
    cells_on_line(cells.take(i), lines.take(i), lines[i]).len() as int
}

/// Every place on a line is that of one of the cells.
proof fn lemma_place_source(cells: Seq<Seq<char>>, lines: Seq<int>, line: int, c: int)
    requires
        cells.len() == lines.len(),
        0 <= c < cells_on_line(cells, lines, line).len(),
    ensures
        exists|i: int|
            0 <= i < cells.len() && lines[i] == line && place_on_line(cells, lines, i) == c,
    decreases cells.len(),
{
    let n = cells.len() as int;
    let before = cells_on_line(cells.drop_last(), lines.drop_last(), line);
    if lines.last() != line || c != before.len() {
        lemma_place_source(cells.drop_last(), lines.drop_last(), line, c);
        let i = choose|i: int|
            0 <= i < n - 1 && lines.drop_last()[i] == line && place_on_line(
                cells.drop_last(),
                lines.drop_last(),
                i,
            ) == c;
        assert(cells.drop_last().take(i) =~= cells.take(i));
        assert(lines.drop_last().take(i) =~= lines.take(i));
    }
}

/// Row grouping. In the grid of `cells`, the `i`th cell stands in the row of
/// its line, after exactly the cells that precede it on that line: cells of
/// one line share one row and keep their order.
pub proof fn lemma_row_grouping(cells: Seq<Seq<char>>, lines: Seq<int>, i: int)
    requires
        cells.len() == lines.len(),
        0 <= i < cells.len(),
    ensures
        0 <= lines[i] - lines.min() < arrange(cells, lines).len(),
        0 <= place_on_line(cells, lines, i) < arrange(cells, lines)[lines[i] - lines.min()].len(),
        arrange(cells, lines)[lines[i] - lines.min()][place_on_line(cells, lines, i)] == cells[i],
        forall|j: int|
            i < j < cells.len() && lines[j] == lines[i] ==> place_on_line(cells, lines, i)
                < #[trigger] place_on_line(cells, lines, j),
{
    lines.min_ensures();
    lines.max_ensures();
    lemma_on_line_step(cells, lines, lines[i], i);
    lemma_on_line_prefix(cells, lines, lines[i], i + 1);
    let upto = cells_on_line(cells.take(i + 1), lines.take(i + 1), lines[i]);
    let all = cells_on_line(cells, lines, lines[i]);
    let at = place_on_line(cells, lines, i);
    assert(all.subrange(0, upto.len() as int)[at] == all[at]);
    assert forall|j: int| i < j < cells.len() && lines[j] == lines[i] implies place_on_line(
        cells,
        lines,
        i,
    ) < #[trigger] place_on_line(cells, lines, j) by {
        lemma_on_line_prefix(cells.take(j), lines.take(j), lines[i], i + 1);
        assert(cells.take(j).take(i + 1) =~= cells.take(i + 1));
        assert(lines.take(j).take(i + 1) =~= lines.take(i + 1));
    }
}

/// The grid of `cells` holds nothing but them: the cell in row `r` at place
/// `c` is the one cell of that row's line with `c` cells of the line before it.
pub proof fn lemma_grid_holds_cells_only(cells: Seq<Seq<char>>, lines: Seq<int>, r: int, c: int)
    requires
        cells.len() == lines.len(),
        0 <= r < arrange(cells, lines).len(),
        0 <= c < arrange(cells, lines)[r].len(),
    ensures
        exists|k: int|
            0 <= k < cells.len() && lines[k] - lines.min() == r && place_on_line(cells, lines, k)
                == c,
{
    lemma_place_source(cells, lines, lines.min() + r, c);
}

/// The cells of `grid`, row after row.
pub open spec fn cells_in_order(grid: Seq<Seq<Seq<char>>>) -> Seq<Seq<char>>
    decreases grid.len(),
{
    if grid.len() == 0 {
        Seq::empty()
    } else {
        cells_in_order(grid.drop_last()) + grid.last()
    }
}

/// The line of each cell of `grid`, row after row, where the rows stand on
/// successive lines from line `first` on.
pub open spec fn lines_in_order(grid: Seq<Seq<Seq<char>>>, first: int) -> Seq<int>
    decreases grid.len(),
{
    if grid.len() == 0 {
        Seq::empty()
    } else {
        lines_in_order(grid.drop_last(), first) + Seq::new(
            grid.last().len(),
            |c: int| first + grid.len() - 1,
        )
    }
}

/// The cells of a line among cells that follow one another are those among
/// the first, followed by those among the second.
proof fn lemma_on_line_concat(
    cells: Seq<Seq<char>>,
    lines: Seq<int>,
    more_cells: Seq<Seq<char>>,
    more_lines: Seq<int>,
    line: int,
)
    requires
        cells.len() == lines.len(),
        more_cells.len() == more_lines.len(),
    ensures
        cells_on_line(cells + more_cells, lines + more_lines, line) == cells_on_line(
            cells,
            lines,
            line,
        ) + cells_on_line(more_cells, more_lines, line),
    decreases more_cells.len(),
{
    if more_cells.len() == 0 {
        assert(cells_on_line(cells, lines, line) + Seq::<Seq<char>>::empty() =~= cells_on_line(
            cells,
            lines,
            line,
        ));
    } else {
        lemma_on_line_concat(cells, lines, more_cells.drop_last(), more_lines.drop_last(), line);
        assert((cells + more_cells).drop_last() =~= cells + more_cells.drop_last());
        assert((lines + more_lines).drop_last() =~= lines + more_lines.drop_last());
    }
}

/// Of cells that all stand on one line, that line holds all and every
/// other line none.
proof fn lemma_on_line_of_row(row: Seq<Seq<char>>, on: int, line: int)
    ensures
        cells_on_line(row, Seq::new(row.len(), |c: int| on), line) == if line == on {
            row
        } else {
            Seq::empty()
        },
    decreases row.len(),
{
    if row.len() > 0 {
        lemma_on_line_of_row(row.drop_last(), on, line);
        assert(Seq::new(row.len(), |c: int| on).drop_last() =~= Seq::new(
            row.drop_last().len(),
            |c: int| on,
        ));
    }
}

/// Of the cells of a grid laid out row after row, each line holds the row
/// that stands on it, and a line beside the grid holds none.
proof fn lemma_rows_in_order(grid: Seq<Seq<Seq<char>>>, first: int, line: int)
    ensures
        cells_in_order(grid).len() == lines_in_order(grid, first).len(),
        cells_on_line(cells_in_order(grid), lines_in_order(grid, first), line) == if first <= line
            < first + grid.len() {
            grid[line - first]
        } else {
            Seq::empty()
        },
    decreases grid.len(),
{
    if grid.len() > 0 {
        let before = grid.drop_last();
        let on = first + grid.len() - 1;
        lemma_rows_in_order(before, first, line);
        lemma_on_line_of_row(grid.last(), on, line);
        lemma_on_line_concat(
            cells_in_order(before),
            lines_in_order(before, first),
            grid.last(),
            Seq::new(grid.last().len(), |c: int| on),
            line,
        );
    }
}

/// The lines of a grid laid out from line `first` on lie between `first`
/// and the line of its last row.
proof fn lemma_lines_in_order(grid: Seq<Seq<Seq<char>>>, first: int)
    ensures
        forall|i: int|
            0 <= i < lines_in_order(grid, first).len() ==> first <= (#[trigger] lines_in_order(
                grid,
                first,
            )[i]) < first + grid.len(),
    decreases grid.len(),
{
    if grid.len() > 0 {
        let before = lines_in_order(grid.drop_last(), first);
        let lines = lines_in_order(grid, first);
        lemma_lines_in_order(grid.drop_last(), first);
        assert forall|i: int| 0 <= i < lines.len() implies first <= (#[trigger] lines[i]) < first
            + grid.len() by {
            if i < before.len() {
                assert(lines[i] == before[i]);
            }
        }
    }
}

/// Laying a grid out and building the grid of what is laid out gives the
/// grid back: the cells of `grid`, taken row after row from successive
/// lines, arrange to `grid`.
pub proof fn lemma_arrange_round_trip(grid: Seq<Seq<Seq<char>>>, first: int)
    requires
        grid_wf(grid),
    ensures
        arrange(cells_in_order(grid), lines_in_order(grid, first)) == grid,
{
    let cells = cells_in_order(grid);
    let lines = lines_in_order(grid, first);
    let last = first + grid.len() - 1;
    lemma_lines_in_order(grid, first);
    lemma_rows_in_order(grid, first, first);
    lemma_rows_in_order(grid, first, last);
    lemma_place_source(cells, lines, first, 0);
    lemma_place_source(cells, lines, last, 0);
    lines.min_ensures();
    lines.max_ensures();
    assert forall|r: int| 0 <= r < grid.len() implies #[trigger] arrange(cells, lines)[r]
        == grid[r] by {
        lemma_rows_in_order(grid, first, first + r);
    }
}

} // verus!
