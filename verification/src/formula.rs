//! The formula of a reconstruction, as a value of pure mathematics.
//!
//! One boolean variable stands for each cell of the unknown first
//! generation. Every later generation is a row of terms over those
//! variables, built from the generation before it by the transition rule.

use vstd::prelude::*;
use crate::life::{
    census_before, near, lemma_census_ends, lemma_census_extend, lemma_census_wrap,
};
use crate::model::{Grid, index, unit, lemma_index_in_range, lemma_index_join};

verus! {

/// A boolean term.
pub enum Truth {
    /// The variable of the cell at a coordinate of the first generation.
    Cell(int, int),
    Lit(bool),
    Not(Box<Truth>),
    Both(Box<Truth>, Box<Truth>),
    Either(Box<Truth>, Box<Truth>),
    /// Two integer terms have the same value.
    Same(Box<Count>, Box<Count>),
}

/// An integer term.
pub enum Count {
    Lit(int),
    /// The second term where the first holds, the third where it does not.
    Pick(Box<Truth>, Box<Count>, Box<Count>),
    Sum(Box<Count>, Box<Count>),
}

/// A value for every variable.
pub type Valuation = spec_fn(int, int) -> bool;

impl Truth {
    /// Whether the term is true under `env`.
    pub open spec fn holds(self, env: Valuation) -> bool
        decreases self,
    {
        match self {
            Truth::Cell(r, c) => env(r, c),
            Truth::Lit(b) => b,
            Truth::Not(a) => !a.holds(env),
            Truth::Both(a, b) => a.holds(env) && b.holds(env),
            Truth::Either(a, b) => a.holds(env) || b.holds(env),
            Truth::Same(a, b) => a.value(env) == b.value(env),
        }
    }
}

impl Count {
    /// The value of the term under `env`.
    pub open spec fn value(self, env: Valuation) -> int
        decreases self,
    {
        match self {
            Count::Lit(n) => n,
            Count::Pick(t, a, b) => if t.holds(env) {
                a.value(env)
            } else {
                b.value(env)
            },
            Count::Sum(a, b) => a.value(env) + b.value(env),
        }
    }
}

/// Every term of `facts` is true under `env`.
pub open spec fn all_hold(facts: Seq<Truth>, env: Valuation) -> bool {
    forall|i: int| 0 <= i < facts.len() ==> (#[trigger] facts[i]).holds(env)
}

/// The valuation that gives each variable the cell of `g` it stands for.
pub open spec fn valuation_of(g: Grid) -> Valuation {
    |r: int, c: int| g.alive(r, c)
}

/// The generation that a row of terms, one per cell, describes under `env`.
pub open spec fn grid_under(terms: Seq<Truth>, rows: nat, cols: nat, env: Valuation) -> Grid {
    Grid { rows, cols, cells: Seq::new(terms.len(), |i: int| terms[i].holds(env)) }
}

/// 1 where the term holds, 0 where it does not.
pub open spec fn tally(t: Truth) -> Count {
    Count::Pick(Box::new(t), Box::new(Count::Lit(1)), Box::new(Count::Lit(0)))
}

/// `sum` with `part` added where `hit` says so.
pub open spec fn extend(sum: Count, hit: bool, part: Count) -> Count {
    if hit {
        Count::Sum(Box::new(sum), Box::new(part))
    } else {
        sum
    }
}

/// The census of the cell at `(r, c)` as a term: the tallies of the cells
/// near it that come before `(row, col)` in row-major order, summed in that
/// order.
pub open spec fn census_term_before(
    terms: Seq<Truth>,
    cols: int,
    r: int,
    c: int,
    row: int,
    col: int,
) -> Count
    decreases row, col,
{
    if row < 0 || col < 0 {
        Count::Lit(0)
    } else if col > 0 {
        extend(
            census_term_before(terms, cols, r, c, row, col - 1),
            near(r, c, row, col - 1),
            tally(terms[index(row, col - 1, cols)]),
        )
    } else if row > 0 {
        census_term_before(terms, cols, r, c, row - 1, cols)
    } else {
        Count::Lit(0)
    }
}

/// The transition rule as a term, from the term of a cell and the term of
/// its census.
pub open spec fn rule_term(live: Truth, census: Count) -> Truth {
    Truth::Either(
        Box::new(
            Truth::Both(
                Box::new(live),
                Box::new(Truth::Same(Box::new(census), Box::new(Count::Lit(4)))),
            ),
        ),
        Box::new(Truth::Same(Box::new(census), Box::new(Count::Lit(3)))),
    )
}

/// The variables of the first generation, in row-major order.
pub open spec fn cell_terms(rows: nat, cols: nat) -> Seq<Truth> {
    Seq::new(rows * cols, |i: int| Truth::Cell(i / (cols as int), i % (cols as int)))
}

/// The terms of the generation after the one that `terms` describes.
pub open spec fn next_terms(terms: Seq<Truth>, rows: nat, cols: nat) -> Seq<Truth> {
    Seq::new(
        terms.len(),
        |i: int|
            rule_term(
                terms[i],
                census_term_before(
                    terms,
                    cols as int,
                    i / (cols as int),
                    i % (cols as int),
                    rows as int,
                    0,
                ),
            ),
    )
}

/// The terms of the generation `steps` transitions after the first.
pub open spec fn terms_after(rows: nat, cols: nat, steps: nat) -> Seq<Truth>
    decreases steps,
{
    if steps == 0 {
        cell_terms(rows, cols)
    } else {
        next_terms(terms_after(rows, cols, (steps - 1) as nat), rows, cols)
    }
}

/// The constraints that hold a generation of terms to the cells of a target:
/// the term itself where the target is alive, its negation where it is dead.
pub open spec fn pinned(terms: Seq<Truth>, target: Seq<bool>) -> Seq<Truth> {
    Seq::new(
        terms.len(),
        |i: int|
            if target[i] {
                terms[i]
            } else {
                Truth::Not(Box::new(terms[i]))
            },
    )
}

/// A tally is worth 1 where its term holds and 0 where it does not.
pub proof fn lemma_tally_value(t: Truth, env: Valuation)
    ensures
        tally(t).value(env) == unit(t.holds(env)),
{
    reveal_with_fuel(Count::value, 2);
}

/// The rule as a term holds exactly where the rule does.
pub proof fn lemma_rule_term(live: Truth, census: Count, env: Valuation)
    ensures
        rule_term(live, census).holds(env) == ((live.holds(env) && census.value(env) == 4)
            || census.value(env) == 3),
{
    let four = Truth::Same(Box::new(census), Box::new(Count::Lit(4)));
    let three = Truth::Same(Box::new(census), Box::new(Count::Lit(3)));
    let survives = Truth::Both(Box::new(live), Box::new(four));
    assert(Count::Lit(4).value(env) == 4);
    assert(Count::Lit(3).value(env) == 3);
    assert(four.holds(env) == (census.value(env) == 4));
    assert(three.holds(env) == (census.value(env) == 3));
    assert(survives.holds(env) == (live.holds(env) && four.holds(env)));
    assert(rule_term(live, census).holds(env) == (survives.holds(env) || three.holds(env)));
}

/// The census term of a cell has the value of the cell's census in the grid
/// that the terms describe.
pub proof fn lemma_census_term_value(
    terms: Seq<Truth>,
    rows: nat,
    cols: nat,
    r: int,
    c: int,
    row: int,
    col: int,
    env: Valuation,
)
    requires
        terms.len() == rows * cols,
        0 <= row <= rows,
        0 <= col <= cols,
        row == rows ==> col == 0,
    ensures
        census_term_before(terms, cols as int, r, c, row, col).value(env) == census_before(
            grid_under(terms, rows, cols, env),
            r,
            c,
            row,
            col,
        ),
    decreases row, col,
{
    let g = grid_under(terms, rows, cols, env);
    if col > 0 {
        let t = terms[index(row, col - 1, cols as int)];
        lemma_census_term_value(terms, rows, cols, r, c, row, col - 1, env);
        lemma_census_extend(g, r, c, row, col - 1);
        lemma_index_in_range(row, col - 1, rows as int, cols as int);
        lemma_tally_value(t, env);
        assert(g.alive(row, col - 1) == t.holds(env));
    } else if row > 0 {
        lemma_census_term_value(terms, rows, cols, r, c, row - 1, cols as int, env);
        lemma_census_wrap(g, r, c, row - 1);
    } else {
        lemma_census_ends(g, r, c);
    }
}

/// The terms of the next generation describe the next generation.
pub proof fn lemma_next_terms(terms: Seq<Truth>, rows: nat, cols: nat, env: Valuation)
    requires
        terms.len() == rows * cols,
        rows == 0 <==> cols == 0,
    ensures
        grid_under(next_terms(terms, rows, cols), rows, cols, env) == grid_under(
            terms,
            rows,
            cols,
            env,
        ).step(),
{
    let g = grid_under(terms, rows, cols, env);
    let next = grid_under(next_terms(terms, rows, cols), rows, cols, env);
    assert forall|i: int| 0 <= i < terms.len() implies next.cells[i] == g.step().cells[i] by {
        assert(cols != 0) by (nonlinear_arith)
            requires
                0 <= i < rows * cols,
        ;
        let r = i / (cols as int);
        let c = i % (cols as int);
        lemma_index_join(i, rows as int, cols as int);
        lemma_census_term_value(terms, rows, cols, r, c, rows as int, 0, env);
        lemma_census_ends(g, r, c);
        lemma_rule_term(
            terms[i],
            census_term_before(terms, cols as int, r, c, rows as int, 0),
            env,
        );
        assert(g.alive(r, c) == terms[i].holds(env));
    }
    assert(next.cells =~= g.step().cells);
}

/// Under any valuation, the terms of a later generation describe the first
/// generation advanced that far.
pub proof fn lemma_terms_after(rows: nat, cols: nat, steps: nat, env: Valuation)
    requires
        rows == 0 <==> cols == 0,
    ensures
        terms_after(rows, cols, steps).len() == rows * cols,
        grid_under(terms_after(rows, cols, steps), rows, cols, env) == grid_under(
            cell_terms(rows, cols),
            rows,
            cols,
            env,
        ).advance(steps),
    decreases steps,
{
    if steps > 0 {
        lemma_terms_after(rows, cols, (steps - 1) as nat, env);
        lemma_next_terms(terms_after(rows, cols, (steps - 1) as nat), rows, cols, env);
    }
}

/// The first generation under the valuation of a grid is that grid.
pub proof fn lemma_cell_terms_of(q: Grid)
    requires
        q.wf(),
    ensures
        grid_under(cell_terms(q.rows, q.cols), q.rows, q.cols, valuation_of(q)) == q,
{
    let g = grid_under(cell_terms(q.rows, q.cols), q.rows, q.cols, valuation_of(q));
    assert forall|i: int| 0 <= i < q.cells.len() implies g.cells[i] == q.cells[i] by {
        assert(q.cols != 0) by (nonlinear_arith)
            requires
                0 <= i < q.rows * q.cols,
        ;
        lemma_index_join(i, q.rows as int, q.cols as int);
    }
    assert(g.cells =~= q.cells);
}

/// A valuation meets the pinned constraints exactly when the terms describe
/// the target under it.
pub proof fn lemma_pinned(terms: Seq<Truth>, rows: nat, cols: nat, target: Seq<bool>, env: Valuation)
    requires
        terms.len() == target.len(),
    ensures
        all_hold(pinned(terms, target), env) <==> grid_under(terms, rows, cols, env).cells
            == target,
{
    let facts = pinned(terms, target);
    let cells = grid_under(terms, rows, cols, env).cells;
    if all_hold(facts, env) {
        assert forall|i: int| 0 <= i < target.len() implies cells[i] == target[i] by {
            assert(facts[i].holds(env));
        }
        assert(cells =~= target);
    }
    if cells == target {
        assert forall|i: int| 0 <= i < facts.len() implies (#[trigger] facts[i]).holds(env) by {
            assert(cells[i] == target[i]);
        }
    }
}

/// The formula of a reconstruction says what it is meant to say: a
/// valuation meets it exactly when the first generation that the valuation
/// describes, advanced `steps` times, is the target.
pub proof fn lemma_formula_meaning(target: Grid, steps: nat, env: Valuation)
    requires
        target.wf(),
    ensures
        all_hold(pinned(terms_after(target.rows, target.cols, steps), target.cells), env)
            <==> grid_under(cell_terms(target.rows, target.cols), target.rows, target.cols, env).advance(
            steps,
        ) == target,
{
    let last = terms_after(target.rows, target.cols, steps);
    lemma_terms_after(target.rows, target.cols, steps, env);
    lemma_pinned(last, target.rows, target.cols, target.cells, env);
}

} // verus!
