//! The constraint encoder: builds in the solver the terms that the formula
//! of a reconstruction is made of.

use vstd::prelude::*;
use z3::ast::{Bool, Int};
use z3::{Context, Solver};
use crate::formula::{
    cell_terms, census_term_before, extend, next_terms, pinned, rule_term, tally, Count, Truth,
};
use crate::life::{before, near, reach, reach_end, reach_start};
use crate::model::{index, lemma_index_in_range, lemma_index_join, lemma_index_split};
use crate::solver::{
    assert_fact, bool_node, both, cell_variable, context_id, either, int_node, negate, number,
    pick, same, solver_view, sum, IntNode, SolverView, Verdict,
};

verus! {

/// The terms that a row of boolean nodes stands for.
pub open spec fn terms_of(nodes: Seq<Bool>) -> Seq<Truth> {
    Seq::new(nodes.len(), |i: int| bool_node(nodes[i]).term)
}

/// The terms that a row of integer nodes stands for.
pub open spec fn counts_of(nodes: Seq<Int>) -> Seq<Count> {
    Seq::new(nodes.len(), |i: int| int_node(nodes[i]).term)
}

/// Every node of the row was made in the context `home`.
pub open spec fn all_at(nodes: Seq<Bool>, home: int) -> bool {
    forall|i: int| 0 <= i < nodes.len() ==> (#[trigger] bool_node(nodes[i])).home == home
}

/// Every node of the row was made in the context `home`.
pub open spec fn all_counts_at(nodes: Seq<Int>, home: int) -> bool {
    forall|i: int| 0 <= i < nodes.len() ==> (#[trigger] int_node(nodes[i])).home == home
}

/// One variable for each cell of the first generation, in row-major order.
pub(crate) fn declare_cells<'ctx>(ctx: &'ctx Context, rows: usize, cols: usize) -> (vars: Vec<
    Bool<'ctx>,
>)
    requires
        rows * cols <= usize::MAX,
    ensures
        terms_of(vars@) == cell_terms(rows as nat, cols as nat),
        all_at(vars@, context_id(*ctx)),
{
    let mut vars: Vec<Bool<'ctx>> = Vec::new();
    let mut row: usize = 0;
    while row < rows
        invariant
            row <= rows,
            vars.len() == row * cols,
            all_at(vars@, context_id(*ctx)),
            forall|i: int|
                0 <= i < vars.len() ==> (#[trigger] bool_node(vars[i])).term == Truth::Cell(
                    i / (cols as int),
                    i % (cols as int),
                ),
        decreases rows - row,
    {
        let mut col: usize = 0;
        while col < cols
            invariant
                row < rows,
                col <= cols,
                vars.len() == row * cols + col,
                all_at(vars@, context_id(*ctx)),
                forall|i: int|
                    0 <= i < vars.len() ==> (#[trigger] bool_node(vars[i])).term == Truth::Cell(
                        i / (cols as int),
                        i % (cols as int),
                    ),
            decreases cols - col,
        {
            proof {
                lemma_index_split(row as int, col as int, cols as int);
            }
            vars.push(cell_variable(ctx, row, col));
            col += 1;
        }
        assert(row * cols + cols == (row + 1) * cols) by (nonlinear_arith);
        row += 1;
    }
    assert(terms_of(vars@) =~= cell_terms(rows as nat, cols as nat));
    vars
}

/// Adds `part` to the count of every cell of the grid that lies in the
/// three by three block around `(row, col)`.
fn spread_term<'ctx>(
    ctx: &'ctx Context,
    counts: &mut Vec<Int<'ctx>>,
    rows: usize,
    cols: usize,
    row: usize,
    col: usize,
    part: &Int<'ctx>,
)
    requires
        row < rows,
        col < cols,
        old(counts).len() == rows * cols,
        all_counts_at(old(counts)@, context_id(*ctx)),
        int_node(*part).home == context_id(*ctx),
    ensures
        final(counts).len() == old(counts).len(),
        all_counts_at(final(counts)@, context_id(*ctx)),
        forall|r: int, c: int|
            0 <= r < rows && 0 <= c < cols ==> #[trigger] counts_of(final(counts)@)[index(
                r,
                c,
                cols as int,
            )] == extend(
                counts_of(old(counts)@)[index(r, c, cols as int)],
                near(r, c, row as int, col as int),
                int_node(*part).term,
            ),
{
    let (row_lo, row_hi) = reach(row, rows);
    let (col_lo, col_hi) = reach(col, cols);
    let mut r: usize = row_lo;
    while r < row_hi
        invariant
            row < rows,
            col < cols,
            row_lo <= r <= row_hi <= rows,
            col_lo <= col_hi <= cols,
            row_lo == reach_start(row as int),
            row_hi == reach_end(row as int, rows as int),
            col_lo == reach_start(col as int),
            col_hi == reach_end(col as int, cols as int),
            counts.len() == rows * cols,
            counts.len() == old(counts).len(),
            all_counts_at(counts@, context_id(*ctx)),
            int_node(*part).home == context_id(*ctx),
            forall|a: int, b: int|
                0 <= a < rows && 0 <= b < cols ==> #[trigger] counts_of(counts@)[index(
                    a,
                    b,
                    cols as int,
                )] == extend(
                    counts_of(old(counts)@)[index(a, b, cols as int)],
                    near(a, b, row as int, col as int) && before(a, b, r as int, col_lo as int),
                    int_node(*part).term,
                ),
        decreases row_hi - r,
    {
        let mut c: usize = col_lo;
        while c < col_hi
            invariant
                row < rows,
                col < cols,
                row_lo <= r < row_hi <= rows,
                col_lo <= c <= col_hi <= cols,
                row_lo == reach_start(row as int),
                row_hi == reach_end(row as int, rows as int),
                col_lo == reach_start(col as int),
                col_hi == reach_end(col as int, cols as int),
                counts.len() == rows * cols,
                counts.len() == old(counts).len(),
                all_counts_at(counts@, context_id(*ctx)),
                int_node(*part).home == context_id(*ctx),
                forall|a: int, b: int|
                    0 <= a < rows && 0 <= b < cols ==> #[trigger] counts_of(counts@)[index(
                        a,
                        b,
                        cols as int,
                    )] == extend(
                        counts_of(old(counts)@)[index(a, b, cols as int)],
                        near(a, b, row as int, col as int) && before(a, b, r as int, c as int),
                        int_node(*part).term,
                    ),
            decreases col_hi - c,
        {
            proof {
                lemma_index_in_range(r as int, c as int, rows as int, cols as int);
            }
            let i = r * cols + c;
            let ghost prev = counts@;
            assert(i == index(r as int, c as int, cols as int));
            assert(counts_of(prev)[index(r as int, c as int, cols as int)] == counts_of(
                old(counts)@,
            )[i as int]);
            let more = sum(ctx, &counts[i], part);
            counts[i] = more;
            assert forall|a: int, b: int| 0 <= a < rows && 0 <= b < cols implies #[trigger] counts_of(
                counts@,
            )[index(a, b, cols as int)] == extend(
                counts_of(old(counts)@)[index(a, b, cols as int)],
                near(a, b, row as int, col as int) && before(a, b, r as int, c + 1),
                int_node(*part).term,
            ) by {
                lemma_index_in_range(a, b, rows as int, cols as int);
                lemma_index_split(a, b, cols as int);
                lemma_index_split(r as int, c as int, cols as int);
                assert(counts_of(prev)[index(a, b, cols as int)] == extend(
                    counts_of(old(counts)@)[index(a, b, cols as int)],
                    near(a, b, row as int, col as int) && before(a, b, r as int, c as int),
                    int_node(*part).term,
                ));
            }
            c += 1;
        }
        r += 1;
    }
}

/// The census of every cell of a generation, as terms over the terms of
/// that generation.
fn census_terms<'ctx>(ctx: &'ctx Context, cells: &Vec<Bool<'ctx>>, rows: usize, cols: usize) -> (counts:
    Vec<Int<'ctx>>)
    requires
        cells.len() == rows * cols,
        all_at(cells@, context_id(*ctx)),
    ensures
        counts.len() == cells.len(),
        all_counts_at(counts@, context_id(*ctx)),
        forall|r: int, c: int|
            0 <= r < rows && 0 <= c < cols ==> #[trigger] counts_of(counts@)[index(
                r,
                c,
                cols as int,
            )] == census_term_before(terms_of(cells@), cols as int, r, c, rows as int, 0),
{
    let ghost terms = terms_of(cells@);
    let zero = number(ctx, 0);
    let one = number(ctx, 1);
    let mut counts: Vec<Int<'ctx>> = Vec::new();
    let mut filled: usize = 0;
    while filled < cells.len()
        invariant
            filled <= cells.len(),
            counts.len() == filled,
            all_counts_at(counts@, context_id(*ctx)),
            forall|i: int|
                0 <= i < counts.len() ==> (#[trigger] int_node(counts[i])).term == Count::Lit(0),
        decreases cells.len() - filled,
    {
        counts.push(number(ctx, 0));
        filled += 1;
    }
    assert forall|r: int, c: int| 0 <= r < rows && 0 <= c < cols implies #[trigger] counts_of(
        counts@,
    )[index(r, c, cols as int)] == census_term_before(terms, cols as int, r, c, 0, 0) by {
        lemma_index_in_range(r, c, rows as int, cols as int);
    }
    let mut row: usize = 0;
    while row < rows
        invariant
            row <= rows,
            terms == terms_of(cells@),
            cells.len() == rows * cols,
            counts.len() == cells.len(),
            all_at(cells@, context_id(*ctx)),
            all_counts_at(counts@, context_id(*ctx)),
            int_node(zero) == (IntNode { home: context_id(*ctx), term: Count::Lit(0) }),
            int_node(one) == (IntNode { home: context_id(*ctx), term: Count::Lit(1) }),
            forall|r: int, c: int|
                0 <= r < rows && 0 <= c < cols ==> #[trigger] counts_of(counts@)[index(
                    r,
                    c,
                    cols as int,
                )] == census_term_before(terms, cols as int, r, c, row as int, 0),
        decreases rows - row,
    {
        let mut col: usize = 0;
        while col < cols
            invariant
                row < rows,
                col <= cols,
                terms == terms_of(cells@),
                cells.len() == rows * cols,
                counts.len() == cells.len(),
                all_at(cells@, context_id(*ctx)),
                all_counts_at(counts@, context_id(*ctx)),
                int_node(zero) == (IntNode {
                    home: context_id(*ctx),
                    term: Count::Lit(0),
                }),
                int_node(one) == (IntNode {
                    home: context_id(*ctx),
                    term: Count::Lit(1),
                }),
                forall|r: int, c: int|
                    0 <= r < rows && 0 <= c < cols ==> #[trigger] counts_of(counts@)[index(
                        r,
                        c,
                        cols as int,
                    )] == census_term_before(terms, cols as int, r, c, row as int, col as int),
            decreases cols - col,
        {
            proof {
                lemma_index_in_range(row as int, col as int, rows as int, cols as int);
            }
            let ghost prev = counts_of(counts@);
            let part = pick(&cells[row * cols + col], &one, &zero);
            assert(int_node(part).term == tally(terms[index(row as int, col as int, cols as int)]));
            spread_term(ctx, &mut counts, rows, cols, row, col, &part);
            assert forall|r: int, c: int| 0 <= r < rows && 0 <= c < cols implies #[trigger] counts_of(
                counts@,
            )[index(r, c, cols as int)] == census_term_before(
                terms,
                cols as int,
                r,
                c,
                row as int,
                col + 1,
            ) by {
                assert(prev[index(r, c, cols as int)] == census_term_before(
                    terms,
                    cols as int,
                    r,
                    c,
                    row as int,
                    col as int,
                ));
            }
            col += 1;
        }
        row += 1;
    }
    counts
}

/// The terms of the next generation, from the nodes of one generation.
pub(crate) fn next_generation<'ctx>(
    ctx: &'ctx Context,
    cells: &Vec<Bool<'ctx>>,
    rows: usize,
    cols: usize,
) -> (next: Vec<Bool<'ctx>>)
    requires
        cells.len() == rows * cols,
        all_at(cells@, context_id(*ctx)),
    ensures
        terms_of(next@) == next_terms(terms_of(cells@), rows as nat, cols as nat),
        all_at(next@, context_id(*ctx)),
{
    let ghost terms = terms_of(cells@);
    let counts = census_terms(ctx, cells, rows, cols);
    let three = number(ctx, 3);
    let four = number(ctx, 4);
    let mut next: Vec<Bool<'ctx>> = Vec::with_capacity(cells.len());
    let mut i: usize = 0;
    while i < cells.len()
        invariant
            i <= cells.len(),
            terms == terms_of(cells@),
            cells.len() == rows * cols,
            counts.len() == cells.len(),
            all_at(cells@, context_id(*ctx)),
            all_counts_at(counts@, context_id(*ctx)),
            int_node(three) == (IntNode {
                home: context_id(*ctx),
                term: Count::Lit(3),
            }),
            int_node(four) == (IntNode { home: context_id(*ctx), term: Count::Lit(4) }),
            forall|r: int, c: int|
                0 <= r < rows && 0 <= c < cols ==> #[trigger] counts_of(counts@)[index(
                    r,
                    c,
                    cols as int,
                )] == census_term_before(terms, cols as int, r, c, rows as int, 0),
            next.len() == i,
            all_at(next@, context_id(*ctx)),
            forall|j: int|
                0 <= j < i ==> (#[trigger] bool_node(next[j])).term == next_terms(
                    terms,
                    rows as nat,
                    cols as nat,
                )[j],
        decreases cells.len() - i,
    {
        proof {
            let r = (i as int) / (cols as int);
            let c = (i as int) % (cols as int);
            lemma_index_join(i as int, rows as int, cols as int);
            assert(counts_of(counts@)[index(r, c, cols as int)] == census_term_before(
                terms,
                cols as int,
                r,
                c,
                rows as int,
                0,
            ));
        }
        let is_four = same(&counts[i], &four);
        let is_three = same(&counts[i], &three);
        let survives = both(ctx, &cells[i], &is_four);
        let alive = either(ctx, &survives, &is_three);
        assert(bool_node(alive).term == rule_term(terms[i as int], counts_of(counts@)[i as int]));
        next.push(alive);
        i += 1;
    }
    assert(terms_of(next@) =~= next_terms(terms, rows as nat, cols as nat));
    next
}

/// Holds the generation that `last` stands for to the cells of `target`:
/// one constraint per cell, the node itself where the target is alive and
/// its negation where it is dead.
pub(crate) fn pin<'ctx>(solver: &mut Solver<'ctx>, last: &Vec<Bool<'ctx>>, target: &Vec<bool>)
    requires
        last.len() == target.len(),
        all_at(last@, solver_view(*old(solver)).home),
        solver_view(*old(solver)).asserted == Seq::<Truth>::empty(),
        solver_view(*old(solver)).verdict == None::<Verdict>,
    ensures
        solver_view(*final(solver)) == (SolverView {
            home: solver_view(*old(solver)).home,
            asserted: pinned(terms_of(last@), target@),
            verdict: None,
        }),
{
    let ghost goal = pinned(terms_of(last@), target@);
    let mut i: usize = 0;
    while i < last.len()
        invariant
            i <= last.len(),
            last.len() == target.len(),
            goal == pinned(terms_of(last@), target@),
            all_at(last@, solver_view(*solver).home),
            solver_view(*solver).home == solver_view(*old(solver)).home,
            solver_view(*solver).asserted == goal.subrange(0, i as int),
            solver_view(*solver).verdict == None::<Verdict>,
        decreases last.len() - i,
    {
        if target[i] {
            assert_fact(solver, &last[i]);
        } else {
            let dead = negate(&last[i]);
            assert_fact(solver, &dead);
        }
        assert(solver_view(*solver).asserted =~= goal.subrange(0, i + 1));
        i += 1;
    }
    assert(goal.subrange(0, last.len() as int) =~= goal);
}

} // verus!
