//! The forward engine: one transition of the rule over a row-major store.

use vstd::prelude::*;
use crate::model::{
    Grid, index, unit, lemma_index_in_range, lemma_index_join, lemma_index_split,
};

verus! {

/// `(r, c)` lies in the three by three block around `(row, col)`.
pub open spec fn near(r: int, c: int, row: int, col: int) -> bool {
    row - 1 <= r <= row + 1 && col - 1 <= c <= col + 1
}

/// `(r, c)` comes before `(row, col)` in row-major order.
pub open spec fn before(r: int, c: int, row: int, col: int) -> bool {
    r < row || (r == row && c < col)
}

/// Where the three cells around `at` start, on an axis that starts at 0.
pub open spec fn reach_start(at: int) -> int {
    if at == 0 {
        0
    } else {
        at - 1
    }
}

/// Where the three cells around `at` end, on an axis of `limit` cells.
pub open spec fn reach_end(at: int, limit: int) -> int {
    if at + 1 < limit {
        at + 2
    } else {
        limit
    }
}

/// The part of the census of `(r, c)` that comes from cells before
/// `(row, col)`.
pub open spec fn census_before(g: Grid, r: int, c: int, row: int, col: int) -> nat {
    unit(g.alive(r - 1, c - 1) && before(r - 1, c - 1, row, col)) + unit(
        g.alive(r - 1, c) && before(r - 1, c, row, col),
    ) + unit(g.alive(r - 1, c + 1) && before(r - 1, c + 1, row, col)) + unit(
        g.alive(r, c - 1) && before(r, c - 1, row, col),
    ) + unit(g.alive(r, c) && before(r, c, row, col)) + unit(
        g.alive(r, c + 1) && before(r, c + 1, row, col),
    ) + unit(g.alive(r + 1, c - 1) && before(r + 1, c - 1, row, col)) + unit(
        g.alive(r + 1, c) && before(r + 1, c, row, col),
    ) + unit(g.alive(r + 1, c + 1) && before(r + 1, c + 1, row, col))
}

/// Taking the cell at `(row, col)` in adds one to the census of the cells
/// near it if it is alive, and nothing otherwise.
pub proof fn lemma_census_extend(g: Grid, r: int, c: int, row: int, col: int)
    ensures
        census_before(g, r, c, row, col + 1) == census_before(g, r, c, row, col) + unit(
            g.alive(row, col) && near(r, c, row, col),
        ),
{
}

/// The end of one row is the start of the next.
pub proof fn lemma_census_wrap(g: Grid, r: int, c: int, row: int)
    ensures
        census_before(g, r, c, row, g.cols as int) == census_before(g, r, c, row + 1, 0),
{
}

/// Before the first cell nothing is counted, and before the end of the grid
/// everything is.
pub proof fn lemma_census_ends(g: Grid, r: int, c: int)
    ensures
        census_before(g, r, c, 0, 0) == 0,
        census_before(g, r, c, g.rows as int, 0) == g.census(r, c),
{
}

/// The cells around `at` that an axis of `limit` cells holds, as the first
/// of them and the one after the last.
pub fn reach(at: usize, limit: usize) -> (span: (usize, usize))
    requires
        at < limit,
    ensures
        span.0 == reach_start(at as int),
        span.1 == reach_end(at as int, limit as int),
        span.0 <= at < span.1 <= limit,
{
    let start = if at == 0 {
        0
    } else {
        at - 1
    };
    let end = if at + 1 < limit {
        at + 2
    } else {
        limit
    };
    (start, end)
}

/// Adds one to the count of every cell of the grid that lies in the three by
/// three block around `(row, col)`.
fn spread(counts: &mut Vec<u8>, rows: usize, cols: usize, row: usize, col: usize)
    requires
        row < rows,
        col < cols,
        old(counts).len() == rows * cols,
        forall|i: int| 0 <= i < old(counts).len() ==> old(counts)[i] < u8::MAX,
    ensures
        final(counts).len() == old(counts).len(),
        forall|r: int, c: int|
            0 <= r < rows && 0 <= c < cols ==> #[trigger] final(counts)[index(r, c, cols as int)]
                == old(counts)[index(r, c, cols as int)] + unit(
                near(r, c, row as int, col as int),
            ),
{
    let (row_lo, row_hi) = reach(row, rows);
    let (col_lo, col_hi) = reach(col, cols);
    let mut r: usize = row_lo;
    while r < row_hi
        invariant
            row < rows,
            col < cols,
            row_lo <= r <= row_hi <= rows,
            col_lo <= col_hi <= cols,
            row_lo == reach_start(row as int),
            row_hi == reach_end(row as int, rows as int),
            col_lo == reach_start(col as int),
            col_hi == reach_end(col as int, cols as int),
            counts.len() == rows * cols,
            counts.len() == old(counts).len(),
            forall|i: int| 0 <= i < old(counts).len() ==> old(counts)[i] < u8::MAX,
            forall|a: int, b: int|
                0 <= a < rows && 0 <= b < cols ==> #[trigger] counts[index(a, b, cols as int)]
                    == old(counts)[index(a, b, cols as int)] + unit(
                    near(a, b, row as int, col as int) && before(a, b, r as int, col_lo as int),
                ),
        decreases row_hi - r,
    {
        let mut c: usize = col_lo;
        while c < col_hi
            invariant
                row < rows,
                col < cols,
                row_lo <= r < row_hi <= rows,
                col_lo <= c <= col_hi <= cols,
                row_lo == reach_start(row as int),
                row_hi == reach_end(row as int, rows as int),
                col_lo == reach_start(col as int),
                col_hi == reach_end(col as int, cols as int),
                counts.len() == rows * cols,
                counts.len() == old(counts).len(),
                forall|i: int| 0 <= i < old(counts).len() ==> old(counts)[i] < u8::MAX,
                forall|a: int, b: int|
                    0 <= a < rows && 0 <= b < cols ==> #[trigger] counts[index(a, b, cols as int)]
                        == old(counts)[index(a, b, cols as int)] + unit(
                        near(a, b, row as int, col as int) && before(a, b, r as int, c as int),
                    ),
            decreases col_hi - c,
        {
            proof {
                lemma_index_in_range(r as int, c as int, rows as int, cols as int);
            }
            let i = r * cols + c;
            let ghost prev = counts@;
            assert(i == index(r as int, c as int, cols as int));
            assert(counts[index(r as int, c as int, cols as int)] == old(counts)[i as int]);
            let bumped = counts[i] + 1;
            counts[i] = bumped;
            assert forall|a: int, b: int| 0 <= a < rows && 0 <= b < cols implies #[trigger] counts[index(
                a,
                b,
                cols as int,
            )] == old(counts)[index(a, b, cols as int)] + unit(
                near(a, b, row as int, col as int) && before(a, b, r as int, c + 1),
            ) by {
                lemma_index_in_range(a, b, rows as int, cols as int);
                lemma_index_split(a, b, cols as int);
                lemma_index_split(r as int, c as int, cols as int);
                assert(prev[index(a, b, cols as int)] == old(counts)[index(a, b, cols as int)]
                    + unit(
                    near(a, b, row as int, col as int) && before(a, b, r as int, c as int),
                ));
            }
            c += 1;
        }
        r += 1;
    }
}

/// The census of every cell of the grid.
fn census_all(rows: usize, cols: usize, data: &Vec<bool>) -> (counts: Vec<u8>)
    requires
        (Grid { rows: rows as nat, cols: cols as nat, cells: data@ }).wf(),
    ensures
        counts.len() == data.len(),
        forall|r: int, c: int|
            0 <= r < rows && 0 <= c < cols ==> #[trigger] counts[index(r, c, cols as int)] == (Grid {
                rows: rows as nat,
                cols: cols as nat,
                cells: data@,
            }).census(r, c),
{
    let ghost g = Grid { rows: rows as nat, cols: cols as nat, cells: data@ };
    let mut counts: Vec<u8> = vec![0u8; data.len()];
    assert forall|r: int, c: int| 0 <= r < rows && 0 <= c < cols implies #[trigger] counts[index(
        r,
        c,
        cols as int,
    )] == census_before(g, r, c, 0, 0) by {
        lemma_index_in_range(r, c, rows as int, cols as int);
        lemma_census_ends(g, r, c);
    }
    let mut row: usize = 0;
    while row < rows
        invariant
            row <= rows,
            g == (Grid { rows: rows as nat, cols: cols as nat, cells: data@ }),
            g.wf(),
            counts.len() == data.len(),
            forall|r: int, c: int|
                0 <= r < rows && 0 <= c < cols ==> #[trigger] counts[index(r, c, cols as int)]
                    == census_before(g, r, c, row as int, 0),
        decreases rows - row,
    {
        let mut col: usize = 0;
        while col < cols
            invariant
                row < rows,
                col <= cols,
                g == (Grid { rows: rows as nat, cols: cols as nat, cells: data@ }),
                g.wf(),
                counts.len() == data.len(),
                forall|r: int, c: int|
                    0 <= r < rows && 0 <= c < cols ==> #[trigger] counts[index(r, c, cols as int)]
                        == census_before(g, r, c, row as int, col as int),
            decreases cols - col,
        {
            proof {
                lemma_index_in_range(row as int, col as int, rows as int, cols as int);
            }
            let ghost prev = counts@;
            if data[row * cols + col] {
                assert forall|i: int| 0 <= i < counts.len() implies counts[i] < u8::MAX by {
                    lemma_index_join(i, rows as int, cols as int);
                    assert(counts[index(i / (cols as int), i % (cols as int), cols as int)]
                        == census_before(
                        g,
                        i / (cols as int),
                        i % (cols as int),
                        row as int,
                        col as int,
                    ));
                }
                spread(&mut counts, rows, cols, row, col);
            }
            assert forall|r: int, c: int| 0 <= r < rows && 0 <= c < cols implies #[trigger] counts[index(
                r,
                c,
                cols as int,
            )] == census_before(g, r, c, row as int, col + 1) by {
                lemma_census_extend(g, r, c, row as int, col as int);
                assert(prev[index(r, c, cols as int)] == census_before(
                    g,
                    r,
                    c,
                    row as int,
                    col as int,
                ));
            }
            col += 1;
        }
        assert forall|r: int, c: int| 0 <= r < rows && 0 <= c < cols implies #[trigger] counts[index(
            r,
            c,
            cols as int,
        )] == census_before(g, r, c, row + 1, 0) by {
            lemma_census_wrap(g, r, c, row as int);
        }
        row += 1;
    }
    assert forall|r: int, c: int| 0 <= r < rows && 0 <= c < cols implies #[trigger] counts[index(
        r,
        c,
        cols as int,
    )] == g.census(r, c) by {
        lemma_census_ends(g, r, c);
    }
    counts
}

/// The cells of the next generation of the grid that `rows`, `cols` and
/// `data` describe.
pub fn step_cells(rows: usize, cols: usize, data: &Vec<bool>) -> (next: Vec<bool>)
    requires
        (Grid { rows: rows as nat, cols: cols as nat, cells: data@ }).wf(),
    ensures
        next@ == (Grid { rows: rows as nat, cols: cols as nat, cells: data@ }).step().cells,
{
    let ghost g = Grid { rows: rows as nat, cols: cols as nat, cells: data@ };
    let counts = census_all(rows, cols, data);
    let mut next: Vec<bool> = Vec::with_capacity(data.len());
    let mut i: usize = 0;
    while i < data.len()
        invariant
            i <= data.len(),
            g == (Grid { rows: rows as nat, cols: cols as nat, cells: data@ }),
            g.wf(),
            counts.len() == data.len(),
            forall|r: int, c: int|
                0 <= r < rows && 0 <= c < cols ==> #[trigger] counts[index(r, c, cols as int)]
                    == g.census(r, c),
            next.len() == i,
            forall|j: int|
                0 <= j < i ==> next[j] == g.next_alive(j / (cols as int), j % (cols as int)),
        decreases data.len() - i,
    {
        proof {
            let r = (i as int) / (cols as int);
            let c = (i as int) % (cols as int);
            lemma_index_join(i as int, rows as int, cols as int);
            assert(counts[index(r, c, cols as int)] == g.census(r, c));
        }
        let count = counts[i];
        next.push((data[i] && count == 4) || count == 3);
        i += 1;
    }
    assert(next@ =~= g.step().cells);
    next
}

} // verus!
