//! Laws of the transition rule, proved over the mathematical model.

use vstd::prelude::*;
use crate::model::{Grid, lemma_advance_dimensions, lemma_grid_ext, lemma_step_alive};

verus! {

/// A size with a zero in it gives the empty grid, whatever the other number
/// is.
pub proof fn lemma_blank_degenerate(k: nat)
    ensures
        Grid::blank(0, k) == Grid::blank(0, 0),
        Grid::blank(k, 0) == Grid::blank(0, 0),
        Grid::blank(0, 0).wf(),
{
}

/// A two by two block of live cells in an otherwise dead grid is a still
/// life: the next generation is the grid itself.
pub proof fn lemma_block_is_still(g: Grid, r: int, c: int)
    requires
        g.wf(),
        g.in_bounds(r, c),
        g.in_bounds(r + 1, c + 1),
        forall|a: int, b: int|
            g.in_bounds(a, b) ==> (g.alive(a, b) <==> (r <= a <= r + 1 && c <= b <= c + 1)),
    ensures
        g.step() == g,
        forall|steps: nat| #[trigger] g.advance(steps) == g,
{
    assert forall|a: int, b: int| g.in_bounds(a, b) implies g.step().alive(a, b) == g.alive(
        a,
        b,
    ) by {
        lemma_step_alive(g, a, b);
    }
    lemma_step_alive(g, r, c);
    lemma_grid_ext(g.step(), g);
    assert forall|steps: nat| #[trigger] g.advance(steps) == g by {
        lemma_still_forever(g, steps);
    }
}

/// A grid that is its own next generation stays as it is.
pub proof fn lemma_still_forever(g: Grid, steps: nat)
    requires
        g.step() == g,
    ensures
        g.advance(steps) == g,
    decreases steps,
{
    if steps > 0 {
        lemma_still_forever(g, (steps - 1) as nat);
    }
}

/// Two grids that are each the next generation of the other come back
/// after every second step.
pub proof fn lemma_period_two(a: Grid, b: Grid, steps: nat)
    requires
        a.step() == b,
        b.step() == a,
    ensures
        a.advance(2 * steps) == a,
        a.advance(2 * steps + 1) == b,
    decreases steps,
{
    if steps > 0 {
        lemma_period_two(a, b, (steps - 1) as nat);
        assert(a.advance(2 * steps) == a.advance((2 * steps - 1) as nat).step());
    }
    assert(a.advance(2 * steps + 1) == a.advance(2 * steps).step());
}

/// The grid of one live cell and nothing else has no predecessor: a cell
/// without neighbours has a census of one at most, and the rule asks for
/// three or four.
pub proof fn lemma_lone_cell_has_no_predecessor(q: Grid, steps: nat)
    requires
        q.wf(),
        steps > 0,
    ensures
        q.advance(steps) != (Grid { rows: 1, cols: 1, cells: seq![true] }),
{
    let p = q.advance((steps - 1) as nat);
    lemma_advance_dimensions(q, (steps - 1) as nat);
    if p.rows == 1 && p.cols == 1 {
        lemma_step_alive(p, 0, 0);
        assert(!p.step().alive(0, 0));
        assert(p.step().cells[0] == p.step().alive(0, 0));
    }
}

} // verus!
