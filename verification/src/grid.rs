//! The executable grid.

use vstd::prelude::*;
use vstd::string::StringExecFns;
use vstd::std_specs::cmp::PartialEqSpecImpl;
use crate::life::{before, step_cells};
use crate::reconstruct::{solve, Outcome, SolverInconclusive};
use crate::model::{
    Grid, lemma_advance_dimensions, lemma_grid_ext, lemma_index_in_range, lemma_index_split,
    lemma_with_cell_alive,
};

verus! {

/// The error of [`Conway::get`] and [`Conway::set`]: the coordinate lies
/// outside the grid.
#[derive(Debug, Clone, Copy, PartialEq, Eq)]
pub struct OutOfBounds;

/// One generation of the automaton: a rectangle of cells of fixed size.
#[derive(Debug)]
pub struct Conway {
    rows: usize,
    cols: usize,
    data: Vec<bool>,
}

impl View for Conway {
    type V = Grid;

    closed spec fn view(&self) -> Grid {
        Grid { rows: self.rows as nat, cols: self.cols as nat, cells: self.data@ }
    }
}

impl Conway {
    #[verifier::type_invariant]
    spec fn inv(&self) -> bool {
        self@.wf()
    }

    /// An all-dead grid. A size with a zero in it gives the empty grid.
    pub fn new(rows: usize, cols: usize) -> (res: Conway)
        requires
            rows * cols <= usize::MAX,
        ensures
            res@ == Grid::blank(rows as nat, cols as nat),
            res@.wf(),
    {
        if rows == 0 || cols == 0 {
            Conway { rows: 0, cols: 0, data: Vec::new() }
        } else {
            let data = vec![false; rows * cols];
            assert(data@ =~= Seq::new((rows * cols) as nat, |i: int| false));
            Conway { rows, cols, data }
        }
    }

    /// The number of rows.
    pub fn rows(&self) -> (rows: usize)
        ensures
            rows == self@.rows,
            self@.wf(),
    {
        proof {
            use_type_invariant(self);
        }
        self.rows
    }

    /// The number of columns.
    pub fn cols(&self) -> (cols: usize)
        ensures
            cols == self@.cols,
            self@.wf(),
    {
        proof {
            use_type_invariant(self);
        }
        self.cols
    }

    /// The place of the cell at `(row, col)` in the row-major store.
    fn offset(&self, row: usize, col: usize) -> (i: usize)
        requires
            self@.in_bounds(row as int, col as int),
        ensures
            i == row * self.cols + col,
            i < self.data.len(),
    {
        proof {
            use_type_invariant(self);
            lemma_index_in_range(row as int, col as int, self.rows as int, self.cols as int);
            assert(self.data@.len() == self.data.len());
        }
        row * self.cols + col
    }

    /// The cell at `(row, col)`.
    pub fn get(&self, row: usize, col: usize) -> (res: Result<bool, OutOfBounds>)
        ensures
            match res {
                Ok(value) => self@.in_bounds(row as int, col as int) && value == self@.alive(
                    row as int,
                    col as int,
                ),
                Err(_) => !self@.in_bounds(row as int, col as int),
            },
    {
        if row < self.rows && col < self.cols {
            Ok(self.data[self.offset(row, col)])
        } else {
            Err(OutOfBounds)
        }
    }

    /// Replaces the cell at `(row, col)`. Outside the grid nothing changes.
    pub fn set(&mut self, row: usize, col: usize, value: bool) -> (res: Result<(), OutOfBounds>)
        ensures
            match res {
                Ok(_) => old(self)@.in_bounds(row as int, col as int) && final(self)@ == old(
                    self,
                )@.with_cell(row as int, col as int, value),
                Err(_) => !old(self)@.in_bounds(row as int, col as int) && final(self)@ == old(
                    self,
                )@,
            },
            final(self)@.wf(),
    {
        proof {
            use_type_invariant(&*self);
        }
        if row < self.rows && col < self.cols {
            let i = self.offset(row, col);
            self.data[i] = value;
            Ok(())
        } else {
            Err(OutOfBounds)
        }
    }

    /// A copy of the grid with `padding` dead cells added on every side.
    pub fn inflate(&self, padding: usize) -> (res: Conway)
        requires
            self@.rows + 2 * padding <= usize::MAX,
            self@.cols + 2 * padding <= usize::MAX,
            (self@.rows + 2 * padding) * (self@.cols + 2 * padding) <= usize::MAX,
        ensures
            res@ == self@.inflate(padding as nat),
            res@.wf(),
    {
        proof {
            use_type_invariant(self);
        }
        let mut res = Conway::new(self.rows + 2 * padding, self.cols + 2 * padding);
        assert forall|r: int, c: int| res@.in_bounds(r, c) implies !res@.alive(r, c) by {
            lemma_index_in_range(r, c, res@.rows as int, res@.cols as int);
        }
        let mut row: usize = 0;
        while row < self.rows
            invariant
                row <= self.rows,
                self@.wf(),
                res@.wf(),
                self.rows + 2 * padding <= usize::MAX,
                self.cols + 2 * padding <= usize::MAX,
                res.rows == self.rows + 2 * padding,
                res.cols == self.cols + 2 * padding,
                forall|r: int, c: int|
                    res@.in_bounds(r, c) ==> res@.alive(r, c) == (self@.alive(
                        r - padding,
                        c - padding,
                    ) && before(r - padding, c - padding, row as int, 0)),
            decreases self.rows - row,
        {
            let mut col: usize = 0;
            while col < self.cols
                invariant
                    row < self.rows,
                    col <= self.cols,
                    self@.wf(),
                    res@.wf(),
                    self.rows + 2 * padding <= usize::MAX,
                    self.cols + 2 * padding <= usize::MAX,
                    res.rows == self.rows + 2 * padding,
                    res.cols == self.cols + 2 * padding,
                    forall|r: int, c: int|
                        res@.in_bounds(r, c) ==> res@.alive(r, c) == (self@.alive(
                            r - padding,
                            c - padding,
                        ) && before(r - padding, c - padding, row as int, col as int)),
                decreases self.cols - col,
            {
                let value = self.data[self.offset(row, col)];
                let at = res.offset(row + padding, col + padding);
                let ghost prev = res@;
                proof {
                    use_type_invariant(&res);
                }
                res.data[at] = value;
                assert(res@ == prev.with_cell(row + padding, col + padding, value));
                assert forall|r: int, c: int| res@.in_bounds(r, c) implies res@.alive(r, c) == (
                self@.alive(r - padding, c - padding) && before(
                    r - padding,
                    c - padding,
                    row as int,
                    col + 1,
                )) by {
                    lemma_with_cell_alive(prev, row + padding, col + padding, value, r, c);
                }
                col += 1;
            }
            row += 1;
        }
        proof {
            let ghost goal = self@.inflate(padding as nat);
            if res.rows != 0 {
                assert(goal.wf());
                assert forall|r: int, c: int| res@.in_bounds(r, c) implies res@.alive(r, c)
                    == goal.alive(r, c) by {
                    lemma_index_in_range(r, c, goal.rows as int, goal.cols as int);
                    lemma_index_split(r, c, goal.cols as int);
                }
                lemma_grid_ext(res@, goal);
            } else {
                assert(res@.cells =~= goal.cells);
            }
        }
        res
    }

    /// The grid `steps` generations later.
    pub fn forward(&self, steps: usize) -> (res: Conway)
        ensures
            res@ == self@.advance(steps as nat),
            res@.rows == self@.rows,
            res@.cols == self@.cols,
            steps == 0 ==> res@ == self@,
            res@.wf(),
    {
        let mut res = self.clone();
        let mut done: usize = 0;
        while done < steps
            invariant
                done <= steps,
                res@ == self@.advance(done as nat),
            decreases steps - done,
        {
            proof {
                use_type_invariant(&res);
            }
            let next = step_cells(res.rows, res.cols, &res.data);
            res = Conway { rows: res.rows, cols: res.cols, data: next };
            done += 1;
        }
        proof {
            lemma_advance_dimensions(self@, steps as nat);
            use_type_invariant(&res);
        }
        res
    }

    /// What an outcome of the solver means for this grid as the target: a
    /// witness of the right size is the predecessor, a refutation says that
    /// there is none, and anything else is an error.
    pub fn conclude(&self, outcome: Outcome) -> (res: Result<Option<Conway>, SolverInconclusive>)
        ensures
            match outcome {
                Outcome::Witness(cells) => if cells.len() == self@.rows * self@.cols {
                    res matches Ok(Some(found)) && found@ == (Grid {
                        rows: self@.rows,
                        cols: self@.cols,
                        cells: cells@,
                    })
                } else {
                    res is Err
                },
                Outcome::NoPredecessor => res matches Ok(None),
                Outcome::Inconclusive => res is Err,
            },
    {
        proof {
            use_type_invariant(self);
        }
        match outcome {
            Outcome::Witness(cells) => {
                if cells.len() == self.data.len() {
                    Ok(Some(Conway { rows: self.rows, cols: self.cols, data: cells }))
                } else {
                    Err(SolverInconclusive)
                }
            },
            Outcome::NoPredecessor => Ok(None),
            Outcome::Inconclusive => Err(SolverInconclusive),
        }
    }

    /// A grid that becomes this one after `steps` generations, found by one
    /// session with the solver.
    ///
    /// `Ok(None)` says that no such grid exists. Which of several such grids
    /// comes back is the solver's choice.
    pub fn backward(&self, steps: usize) -> (res: Result<Option<Conway>, SolverInconclusive>)
        ensures
            match res {
                Ok(Some(found)) => found@.wf() && found@.advance(steps as nat) == self@,
                Ok(None) => steps > 0 && forall|q: Grid|
                    q.wf() ==> #[trigger] q.advance(steps as nat) != self@,
                Err(_) => true,
            },
            steps == 0 ==> (res matches Ok(Some(found)) ==> found@ == self@),
    {
        proof {
            use_type_invariant(self);
        }
        let outcome = solve(self.rows, self.cols, &self.data, steps);
        proof {
            if steps == 0 {
                assert(self@.advance(0) == self@);
            }
            if outcome is Witness {
                lemma_advance_dimensions(
                    Grid { rows: self@.rows, cols: self@.cols, cells: outcome->Witness_0@ },
                    steps as nat,
                );
            }
        }
        self.conclude(outcome)
    }

    /// The grid as text.
    pub fn render(&self) -> (text: String)
        ensures
            text@ == self@.render(),
    {
        proof {
            use_type_invariant(self);
            reveal_strlit("[]");
            reveal_strlit("\u{25a0}");
            reveal_strlit("\u{25a1}");
            reveal_strlit("\n");
        }
        if self.rows == 0 || self.cols == 0 {
            let text = String::from_str("[]");
            assert(text@ =~= seq!['[', ']']);
            return text;
        }
        let mut text = String::new();
        let mut row: usize = 0;
        while row < self.rows
            invariant
                row <= self.rows,
                self@.wf(),
                "\u{25a0}"@ == seq!['\u{25a0}'],
                "\u{25a1}"@ == seq!['\u{25a1}'],
                "\n"@ == seq!['\n'],
                text@ == self@.page(row as nat),
            decreases self.rows - row,
        {
            let ghost above = text@;
            let mut col: usize = 0;
            while col < self.cols
                invariant
                    row < self.rows,
                    col <= self.cols,
                    self@.wf(),
                    "\u{25a0}"@ == seq!['\u{25a0}'],
                    "\u{25a1}"@ == seq!['\u{25a1}'],
                    text@ == above + self@.row_text(row as int, col as nat),
                decreases self.cols - col,
            {
                if self.data[self.offset(row, col)] {
                    text.append("\u{25a0}");
                } else {
                    text.append("\u{25a1}");
                }
                assert(text@ =~= above + self@.row_text(row as int, (col + 1) as nat));
                col += 1;
            }
            text.append("\n");
            assert(text@ =~= self@.page((row + 1) as nat));
            row += 1;
        }
        text
    }
}

impl Clone for Conway {
    fn clone(&self) -> (res: Conway)
        ensures
            res@ == self@,
            res@.wf(),
    {
        proof {
            use_type_invariant(self);
        }
        let data = self.data.clone();
        assert(data@ =~= self.data@);
        Conway { rows: self.rows, cols: self.cols, data }
    }
}

impl PartialEq for Conway {
    /// Two grids are equal when they have the same size and the same cells.
    fn eq(&self, other: &Conway) -> (res: bool) {
        if self.rows != other.rows || self.cols != other.cols || self.data.len()
            != other.data.len() {
            return false;
        }
        let mut i: usize = 0;
        while i < self.data.len()
            invariant
                i <= self.data.len(),
                self.data.len() == other.data.len(),
                forall|j: int| 0 <= j < i ==> self.data[j] == other.data[j],
            decreases self.data.len() - i,
        {
            if self.data[i] != other.data[i] {
                return false;
            }
            i += 1;
        }
        assert(self.data@ =~= other.data@);
        true
    }
}

impl Eq for Conway {

}

impl PartialEqSpecImpl for Conway {
    open spec fn obeys_eq_spec() -> bool {
        true
    }

    open spec fn eq_spec(&self, other: &Conway) -> bool {
        self@ == other@
    }
}

} // verus!
