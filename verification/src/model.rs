//! The mathematical model: a rectangle of cells and the transition rule.

use vstd::prelude::*;
use vstd::arithmetic::div_mod::{lemma_fundamental_div_mod, lemma_fundamental_div_mod_converse};

verus! {

/// One generation, as a value of pure mathematics.
///
/// `cells` is row-major: the cell in row `r` and column `c` is
/// `cells[r * cols + c]`.
pub struct Grid {
    pub rows: nat,
    pub cols: nat,
    pub cells: Seq<bool>,
}

/// The row-major index of the coordinate `(r, c)` in a grid `cols` wide.
pub open spec fn index(r: int, c: int, cols: int) -> int {
    r * cols + c
}

/// 1 for a live cell, 0 for a dead one.
pub open spec fn unit(b: bool) -> nat {
    if b {
        1
    } else {
        0
    }
}

impl Grid {
    /// There is one cell per coordinate, and a grid without cells has
    /// neither rows nor columns.
    pub open spec fn wf(self) -> bool {
        &&& self.cells.len() == self.rows * self.cols
        &&& (self.rows == 0 <==> self.cols == 0)
    }

    pub open spec fn in_bounds(self, r: int, c: int) -> bool {
        0 <= r < self.rows && 0 <= c < self.cols
    }

    /// The cell at `(r, c)`; every coordinate outside the grid is dead.
    pub open spec fn alive(self, r: int, c: int) -> bool {
        self.in_bounds(r, c) && self.cells[index(r, c, self.cols as int)]
    }

    /// The grid with a border of `padding` dead cells on every side.
    pub open spec fn inflate(self, padding: nat) -> Grid {
        let rows = self.rows + 2 * padding;
        let cols = self.cols + 2 * padding;
        if rows == 0 || cols == 0 {
            Grid::blank(0, 0)
        } else {
            Grid {
                rows,
                cols,
                cells: Seq::new(
                    rows * cols,
                    |i: int| self.alive(i / (cols as int) - padding, i % (cols as int) - padding),
                ),
            }
        }
    }

    /// The glyphs of the first `cols` cells of row `r`.
    pub open spec fn row_text(self, r: int, cols: nat) -> Seq<char> {
        Seq::new(
            cols,
            |c: int|
                if self.alive(r, c) {
                    '\u{25a0}'
                } else {
                    '\u{25a1}'
                },
        )
    }

    /// The first `rows` rows as text, each row closed by a line feed.
    pub open spec fn page(self, rows: nat) -> Seq<char>
        decreases rows,
    {
        if rows == 0 {
            Seq::empty()
        } else {
            self.page((rows - 1) as nat) + self.row_text(rows - 1, self.cols).push('\n')
        }
    }

    /// The grid as text: a filled square for a live cell and a hollow one
    /// for a dead cell, one row per line. The empty grid is a pair of square
    /// brackets.
    pub open spec fn render(self) -> Seq<char> {
        if self.rows == 0 || self.cols == 0 {
            seq!['[', ']']
        } else {
            self.page(self.rows)
        }
    }

    /// The number of live cells in the three by three block around `(r, c)`,
    /// the cell itself among them. Near an edge the block is cut off.
    pub open spec fn census(self, r: int, c: int) -> nat {
        unit(self.alive(r - 1, c - 1)) + unit(self.alive(r - 1, c)) + unit(self.alive(r - 1, c + 1))
            + unit(self.alive(r, c - 1)) + unit(self.alive(r, c)) + unit(self.alive(r, c + 1))
            + unit(self.alive(r + 1, c - 1)) + unit(self.alive(r + 1, c)) + unit(
            self.alive(r + 1, c + 1),
        )
    }

    /// The transition rule for one cell. The census counts the cell itself,
    /// so a live cell with two or three live neighbours has a census of
    /// three or four.
    pub open spec fn next_alive(self, r: int, c: int) -> bool {
        (self.alive(r, c) && self.census(r, c) == 4) || self.census(r, c) == 3
    }

    /// The next generation.
    pub open spec fn step(self) -> Grid {
        Grid {
            cells: Seq::new(
                self.rows * self.cols,
                |i: int| self.next_alive(i / (self.cols as int), i % (self.cols as int)),
            ),
            ..self
        }
    }

    /// The generation `steps` transitions later.
    pub open spec fn advance(self, steps: nat) -> Grid
        decreases steps,
    {
        if steps == 0 {
            self
        } else {
            self.advance((steps - 1) as nat).step()
        }
    }

    /// The all-dead grid of the given size. A size with a zero in it gives
    /// the one empty grid.
    pub open spec fn blank(rows: nat, cols: nat) -> Grid {
        if rows == 0 || cols == 0 {
            Grid { rows: 0, cols: 0, cells: Seq::empty() }
        } else {
            Grid { rows, cols, cells: Seq::new(rows * cols, |i: int| false) }
        }
    }

    /// The grid with the cell at `(r, c)` replaced.
    pub open spec fn with_cell(self, r: int, c: int, value: bool) -> Grid {
        Grid { cells: self.cells.update(index(r, c, self.cols as int), value), ..self }
    }
}

/// A coordinate inside a `rows` by `cols` rectangle has a row-major index
/// inside `rows * cols`.
pub proof fn lemma_index_in_range(r: int, c: int, rows: int, cols: int)
    requires
        0 <= r < rows,
        0 <= c < cols,
    ensures
        0 <= r * cols,
        0 <= index(r, c, cols) < rows * cols,
{
    assert(0 <= r * cols && (r + 1) * cols <= rows * cols && (r + 1) * cols == r * cols + cols)
        by (nonlinear_arith)
        requires
            0 <= r < rows,
            0 < cols,
    ;
}

/// A row-major index splits back into its row and column.
pub proof fn lemma_index_split(r: int, c: int, cols: int)
    requires
        0 <= c < cols,
    ensures
        index(r, c, cols) / cols == r,
        index(r, c, cols) % cols == c,
{
    assert(r * cols == cols * r) by (nonlinear_arith);
    lemma_fundamental_div_mod_converse(r * cols + c, cols, r, c);
}

/// An index inside `rows * cols` is the index of a coordinate inside the
/// rectangle.
pub proof fn lemma_index_join(i: int, rows: int, cols: int)
    requires
        0 <= i < rows * cols,
        0 < cols,
    ensures
        0 <= i / cols < rows,
        0 <= i % cols < cols,
        index(i / cols, i % cols, cols) == i,
{
    lemma_fundamental_div_mod(i, cols);
    let q = i / cols;
    assert(cols * q == q * cols) by (nonlinear_arith);
    assert(q < rows) by (nonlinear_arith)
        requires
            q * cols <= i,
            i < rows * cols,
            0 < cols,
    ;
    assert(0 <= q) by (nonlinear_arith)
        requires
            q * cols + cols > i,
            0 <= i,
            0 < cols,
    ;
}

/// Replacing one cell changes that cell and no other.
pub proof fn lemma_with_cell_alive(g: Grid, r0: int, c0: int, value: bool, r: int, c: int)
    requires
        g.wf(),
        g.in_bounds(r0, c0),
    ensures
        g.with_cell(r0, c0, value).wf(),
        g.with_cell(r0, c0, value).alive(r, c) == if r == r0 && c == c0 {
            value
        } else {
            g.alive(r, c)
        },
{
    lemma_index_in_range(r0, c0, g.rows as int, g.cols as int);
    lemma_index_split(r0, c0, g.cols as int);
    if g.in_bounds(r, c) {
        lemma_index_in_range(r, c, g.rows as int, g.cols as int);
        lemma_index_split(r, c, g.cols as int);
    }
}

/// Two well-formed grids of one size that agree on every cell are the same
/// grid.
pub proof fn lemma_grid_ext(a: Grid, b: Grid)
    requires
        a.wf(),
        b.wf(),
        a.rows == b.rows,
        a.cols == b.cols,
        forall|r: int, c: int| a.in_bounds(r, c) ==> a.alive(r, c) == b.alive(r, c),
    ensures
        a == b,
{
    assert forall|i: int| 0 <= i < a.cells.len() implies a.cells[i] == b.cells[i] by {
        assert(a.cols != 0) by (nonlinear_arith)
            requires
                0 <= i < a.rows * a.cols,
        ;
        lemma_index_join(i, a.rows as int, a.cols as int);
        let r = i / (a.cols as int);
        let c = i % (a.cols as int);
        assert(a.alive(r, c) == b.alive(r, c));
    }
    assert(a.cells =~= b.cells);
}

/// Inside a well-formed grid, the next generation holds at each coordinate
/// what the rule gives for it.
pub proof fn lemma_step_alive(g: Grid, r: int, c: int)
    requires
        g.wf(),
        g.in_bounds(r, c),
    ensures
        g.step().wf(),
        g.step().alive(r, c) == g.next_alive(r, c),
{
    lemma_index_in_range(r, c, g.rows as int, g.cols as int);
    lemma_index_split(r, c, g.cols as int);
}

/// Advancing never changes the size of a grid, and keeps it well formed.
pub proof fn lemma_advance_dimensions(g: Grid, steps: nat)
    ensures
        g.advance(steps).rows == g.rows,
        g.advance(steps).cols == g.cols,
        g.wf() ==> g.advance(steps).wf(),
    decreases steps,
{
    if steps > 0 {
        lemma_advance_dimensions(g, (steps - 1) as nat);
    }
}

/// Advancing by no step at all gives the grid back.
pub proof fn lemma_advance_zero(g: Grid)
    ensures
        g.advance(0) == g,
{
}

/// Advancing by `a + b` steps is advancing by `a` and then by `b`.
pub proof fn lemma_advance_add(g: Grid, a: nat, b: nat)
    ensures
        g.advance(a + b) == g.advance(a).advance(b),
    decreases b,
{
    if b > 0 {
        lemma_advance_add(g, a, (b - 1) as nat);
        assert((a + b - 1) as nat == a + (b - 1) as nat);
    }
}

} // verus!
