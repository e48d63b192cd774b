//! The backward reconstructor: one session with the solver, and what its
//! answer means.

use vstd::prelude::*;
use z3::ast::Bool;
use z3::{Context, Model};
use crate::encoder::{all_at, declare_cells, next_generation, pin, terms_of};
use crate::formula::{
    cell_terms, grid_under, terms_after, valuation_of, lemma_cell_terms_of,
    lemma_formula_meaning, all_hold, pinned,
};
use crate::model::{Grid, lemma_advance_dimensions};
use crate::solver::{
    bool_node, check, context_id, evaluate, literal, model, model_view, new_config, new_context,
    new_solver, solver_view, valuation, Verdict,
};

verus! {

/// What a session with the solver gave.
#[derive(Debug, Clone, PartialEq, Eq)]
pub enum Outcome {
    /// The cells of a first generation that evolves into the target, in
    /// row-major order.
    Witness(Vec<bool>),
    /// The solver has shown that no grid evolves into the target.
    NoPredecessor,
    /// The solver gave no answer, or an answer without a complete model.
    Inconclusive,
}

/// The error of a reconstruction: the solver did not decide.
#[derive(Debug, Clone, Copy, PartialEq, Eq)]
pub struct SolverInconclusive;

/// The terms of the generation `steps` transitions after the variables.
fn compose<'ctx>(
    ctx: &'ctx Context,
    vars: &Vec<Bool<'ctx>>,
    rows: usize,
    cols: usize,
    steps: usize,
) -> (last: Vec<Bool<'ctx>>)
    requires
        steps >= 1,
        vars.len() == rows * cols,
        all_at(vars@, context_id(*ctx)),
        terms_of(vars@) == cell_terms(rows as nat, cols as nat),
    ensures
        terms_of(last@) == terms_after(rows as nat, cols as nat, steps as nat),
        last.len() == vars.len(),
        all_at(last@, context_id(*ctx)),
{
    let mut cells = next_generation(ctx, vars, rows, cols);
    let mut done: usize = 1;
    assert(terms_after(rows as nat, cols as nat, 0) == cell_terms(rows as nat, cols as nat));
    assert(terms_of(cells@).len() == cells.len());
    while done < steps
        invariant
            1 <= done <= steps,
            cells.len() == rows * cols,
            cells.len() == vars.len(),
            all_at(cells@, context_id(*ctx)),
            terms_of(cells@) == terms_after(rows as nat, cols as nat, done as nat),
        decreases steps - done,
    {
        let next = next_generation(ctx, &cells, rows, cols);
        assert(terms_of(next@).len() == next.len());
        cells = next;
        done += 1;
    }
    cells
}

/// The value that the model gives to each variable, or nothing where the
/// solver would not say. Without variables nothing is asked of the solver,
/// and the reading is the empty row.
fn read_cells<'ctx>(found: &Model<'ctx>, vars: &Vec<Bool<'ctx>>) -> (cells: Option<Vec<bool>>)
    requires
        all_at(vars@, model_view(*found).home),
    ensures
        cells matches Some(values) ==> values.len() == vars.len() && forall|i: int|
            0 <= i < values.len() ==> values[i] == (#[trigger] terms_of(vars@)[i]).holds(
                valuation(*found),
            ),
        vars.len() == 0 ==> (cells matches Some(values) && values@ == Seq::<bool>::empty()),
{
    let mut values: Vec<bool> = Vec::with_capacity(vars.len());
    let mut i: usize = 0;
    while i < vars.len()
        invariant
            i <= vars.len(),
            values.len() == i,
            all_at(vars@, model_view(*found).home),
            forall|j: int|
                0 <= j < i ==> values[j] == (#[trigger] terms_of(vars@)[j]).holds(
                    valuation(*found),
                ),
        decreases vars.len() - i,
    {
        assert(bool_node(vars[i as int]).home == model_view(*found).home);
        match evaluate(found, &vars[i]) {
            Some(value) => match literal(&value) {
                Some(bit) => {
                    values.push(bit);
                },
                None => {
                    return None;
                },
            },
            None => {
                return None;
            },
        }
        i += 1;
    }
    Some(values)
}

/// Asks the solver for a grid that evolves into the target in `steps`
/// transitions. The solver is asked once.
pub fn solve(rows: usize, cols: usize, target: &Vec<bool>, steps: usize) -> (outcome: Outcome)
    requires
        (Grid { rows: rows as nat, cols: cols as nat, cells: target@ }).wf(),
    ensures
        match outcome {
            Outcome::Witness(cells) => {
                let found = Grid { rows: rows as nat, cols: cols as nat, cells: cells@ };
                found.wf() && found.advance(steps as nat) == (Grid {
                    rows: rows as nat,
                    cols: cols as nat,
                    cells: target@,
                })
            },
            Outcome::NoPredecessor => forall|q: Grid|
                q.wf() ==> #[trigger] q.advance(steps as nat) != (Grid {
                    rows: rows as nat,
                    cols: cols as nat,
                    cells: target@,
                }),
            Outcome::Inconclusive => true,
        },
{
    let ghost goal = Grid { rows: rows as nat, cols: cols as nat, cells: target@ };
    let config = new_config();
    let ctx = new_context(&config);
    assert(target@.len() == target.len());
    let vars = declare_cells(&ctx, rows, cols);
    assert(terms_of(vars@).len() == vars.len());
    let mut solver = new_solver(&ctx);
    if steps == 0 {
        pin(&mut solver, &vars, target);
    } else {
        let last = compose(&ctx, &vars, rows, cols, steps);
        pin(&mut solver, &last, target);
    }
    let ghost facts = pinned(terms_after(rows as nat, cols as nat, steps as nat), target@);
    assert(solver_view(solver).asserted == facts);
    match check(&mut solver) {
        Verdict::Sat => match model(&solver) {
            Some(found) => {
                let reading = read_cells(&found, &vars);
                proof {
                    if reading is Some {
                        let env = valuation(found);
                        let first = Grid {
                            rows: rows as nat,
                            cols: cols as nat,
                            cells: reading->Some_0@,
                        };
                        assert(all_hold(facts, env));
                        lemma_formula_meaning(goal, steps as nat, env);
                        assert(first.cells =~= grid_under(
                            cell_terms(rows as nat, cols as nat),
                            rows as nat,
                            cols as nat,
                            env,
                        ).cells);
                    }
                }
                Outcome::settle(Verdict::Sat, reading)
            },
            None => Outcome::settle(Verdict::Sat, None),
        },
        Verdict::Unsat => {
            proof {
                assert forall|q: Grid| q.wf() implies #[trigger] q.advance(steps as nat)
                    != goal by {
                    if q.advance(steps as nat) == goal {
                        lemma_advance_dimensions(q, steps as nat);
                        lemma_cell_terms_of(q);
                        lemma_formula_meaning(goal, steps as nat, valuation_of(q));
                        assert(all_hold(facts, valuation_of(q)));
                    }
                }
            }
            Outcome::settle(Verdict::Unsat, None)
        },
        Verdict::Unknown => Outcome::settle(Verdict::Unknown, None),
    }
}

impl Outcome {
    /// What an answer of the solver comes to, given the cells that were read
    /// from its model where it had one: a witness where the answer is `Sat`
    /// and the cells were read, a refutation where it is `Unsat`, and nothing
    /// conclusive otherwise.
    pub fn settle(verdict: Verdict, reading: Option<Vec<bool>>) -> (outcome: Outcome)
        ensures
            match verdict {
                Verdict::Sat => match reading {
                    Some(cells) => outcome == Outcome::Witness(cells),
                    None => outcome == Outcome::Inconclusive,
                },
                Verdict::Unsat => outcome == Outcome::NoPredecessor,
                Verdict::Unknown => outcome == Outcome::Inconclusive,
            },
    {
        match verdict {
            Verdict::Sat => match reading {
                Some(cells) => Outcome::Witness(cells),
                None => Outcome::Inconclusive,
            },
            Verdict::Unsat => Outcome::NoPredecessor,
            Verdict::Unknown => Outcome::Inconclusive,
        }
    }
}

} // verus!
