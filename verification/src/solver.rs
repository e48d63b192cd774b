//! The boundary with the z3 solver.
//!
//! Nothing in this file is proved. It declares the solver's types, says what
//! a value of each of them holds, and gives one function for each function
//! of the solver that this crate calls, with the contract that this crate
//! takes on trust.

use vstd::prelude::*;
use z3::ast::{Ast, Bool, Int};
use z3::{Config, Context, Model, SatResult, Solver};
use crate::formula::{all_hold, Count, Truth, Valuation};

verus! {

/// `z3::Config`, opaque here.
#[verifier::external_type_specification]
#[verifier::external_body]
pub struct ExConfig(Config);

/// `z3::Context`, opaque here.
#[verifier::external_type_specification]
#[verifier::external_body]
pub struct ExContext(Context);

/// `z3::ast::Bool`, opaque here.
#[verifier::external_type_specification]
#[verifier::external_body]
pub struct ExBool<'ctx>(Bool<'ctx>);

/// `z3::ast::Int`, opaque here.
#[verifier::external_type_specification]
#[verifier::external_body]
pub struct ExInt<'ctx>(Int<'ctx>);

/// `z3::Solver`, opaque here.
#[verifier::external_type_specification]
#[verifier::external_body]
pub struct ExSolver<'ctx>(Solver<'ctx>);

/// `z3::Model`, opaque here.
#[verifier::external_type_specification]
#[verifier::external_body]
pub struct ExModel<'ctx>(Model<'ctx>);

/// The answer of the solver to a check.
#[derive(Debug, Clone, Copy, PartialEq, Eq)]
pub enum Verdict {
    /// Some valuation meets all the constraints.
    Sat,
    /// No valuation meets all the constraints.
    Unsat,
    /// The solver gave up.
    Unknown,
}

/// What a boolean node of the solver holds: the context it was made in and
/// the term it stands for.
pub struct BoolNode {
    pub home: int,
    pub term: Truth,
}

/// What an integer node of the solver holds.
pub struct IntNode {
    pub home: int,
    pub term: Count,
}

/// What a solver holds: its context, the constraints asserted so far, and
/// the answer of its last check if nothing was asserted since.
pub struct SolverView {
    pub home: int,
    pub asserted: Seq<Truth>,
    pub verdict: Option<Verdict>,
}

/// What a model holds: its context and the cell variables that it makes
/// true, with every variable that the solver left open given some value.
pub struct ModelView {
    pub home: int,
    pub trues: Set<(int, int)>,
}

/// The identity of a context. Nodes of different contexts must not meet.
pub uninterp spec fn context_id(ctx: Context) -> int;

/// What a `z3::ast::Bool` holds.
pub uninterp spec fn bool_node(t: Bool) -> BoolNode;

/// What a `z3::ast::Int` holds.
pub uninterp spec fn int_node(t: Int) -> IntNode;

/// What a `z3::Solver` holds.
pub uninterp spec fn solver_view(s: Solver) -> SolverView;

/// What a `z3::Model` holds.
pub uninterp spec fn model_view(m: Model) -> ModelView;

/// The valuation that a model stands for.
pub open spec fn valuation(m: Model) -> Valuation {
    |r: int, c: int| model_view(m).trues.contains((r, c))
}

/// `z3::Config::new`: a configuration with every setting at its default.
#[verifier::external_body]
pub(crate) fn new_config() -> (config: Config) {
    Config::new()
}

/// `z3::Context::new`: a fresh context.
#[verifier::external_body]
pub(crate) fn new_context(config: &Config) -> (ctx: Context) {
    Context::new(config)
}

/// `z3::ast::Bool::new_const`, under the name `d`, the row, a comma, the
/// column. Taken on trust: the node is the variable of that cell, so two
/// calls give the same variable exactly when the coordinates agree.
#[verifier::external_body]
pub(crate) fn cell_variable<'ctx>(ctx: &'ctx Context, row: usize, col: usize) -> (t: Bool<'ctx>)
    ensures
        bool_node(t) == (BoolNode {
            home: context_id(*ctx),
            term: Truth::Cell(row as int, col as int),
        }),
{
    Bool::new_const(ctx, format!("d{row},{col}"))
}

/// `z3::ast::Int::from_u64`. Taken on trust: the node is the numeral `n`.
#[verifier::external_body]
pub(crate) fn number<'ctx>(ctx: &'ctx Context, n: u64) -> (t: Int<'ctx>)
    ensures
        int_node(t) == (IntNode { home: context_id(*ctx), term: Count::Lit(n as int) }),
{
    Int::from_u64(ctx, n)
}

/// `z3::ast::Bool::ite` on integer nodes. Taken on trust: the node stands
/// for `a` where `cond` holds and for `b` where it does not.
#[verifier::external_body]
pub(crate) fn pick<'ctx>(cond: &Bool<'ctx>, a: &Int<'ctx>, b: &Int<'ctx>) -> (t: Int<'ctx>)
    requires
        int_node(*a).home == bool_node(*cond).home,
        int_node(*b).home == bool_node(*cond).home,
    ensures
        int_node(t) == (IntNode {
            home: bool_node(*cond).home,
            term: Count::Pick(
                Box::new(bool_node(*cond).term),
                Box::new(int_node(*a).term),
                Box::new(int_node(*b).term),
            ),
        }),
{
    cond.ite(a, b)
}

/// `z3::ast::Int::add` of two nodes. Taken on trust: the node stands for
/// their sum. The solver panics on nodes of another context.
#[verifier::external_body]
pub(crate) fn sum<'ctx>(ctx: &'ctx Context, a: &Int<'ctx>, b: &Int<'ctx>) -> (t: Int<'ctx>)
    requires
        int_node(*a).home == context_id(*ctx),
        int_node(*b).home == context_id(*ctx),
    ensures
        int_node(t) == (IntNode {
            home: context_id(*ctx),
            term: Count::Sum(Box::new(int_node(*a).term), Box::new(int_node(*b).term)),
        }),
{
    Int::add(ctx, &[a, b])
}

/// `z3::ast::Ast::_eq` on integer nodes. Taken on trust: the node stands
/// for the equality of the two. The solver panics on nodes of different
/// sorts, which two integer nodes of one context never are.
#[verifier::external_body]
pub(crate) fn same<'ctx>(a: &Int<'ctx>, b: &Int<'ctx>) -> (t: Bool<'ctx>)
    requires
        int_node(*a).home == int_node(*b).home,
    ensures
        bool_node(t) == (BoolNode {
            home: int_node(*a).home,
            term: Truth::Same(Box::new(int_node(*a).term), Box::new(int_node(*b).term)),
        }),
{
    a._eq(b)
}

/// `z3::ast::Bool::and` of two nodes. Taken on trust: the node stands for
/// their conjunction. The solver panics on nodes of another context.
#[verifier::external_body]
pub(crate) fn both<'ctx>(ctx: &'ctx Context, a: &Bool<'ctx>, b: &Bool<'ctx>) -> (t: Bool<'ctx>)
    requires
        bool_node(*a).home == context_id(*ctx),
        bool_node(*b).home == context_id(*ctx),
    ensures
        bool_node(t) == (BoolNode {
            home: context_id(*ctx),
            term: Truth::Both(Box::new(bool_node(*a).term), Box::new(bool_node(*b).term)),
        }),
{
    Bool::and(ctx, &[a, b])
}

/// `z3::ast::Bool::or` of two nodes. Taken on trust: the node stands for
/// their disjunction. The solver panics on nodes of another context.
#[verifier::external_body]
pub(crate) fn either<'ctx>(ctx: &'ctx Context, a: &Bool<'ctx>, b: &Bool<'ctx>) -> (t: Bool<'ctx>)
    requires
        bool_node(*a).home == context_id(*ctx),
        bool_node(*b).home == context_id(*ctx),
    ensures
        bool_node(t) == (BoolNode {
            home: context_id(*ctx),
            term: Truth::Either(Box::new(bool_node(*a).term), Box::new(bool_node(*b).term)),
        }),
{
    Bool::or(ctx, &[a, b])
}

/// `z3::ast::Bool::not`. Taken on trust: the node stands for the negation.
#[verifier::external_body]
pub(crate) fn negate<'ctx>(a: &Bool<'ctx>) -> (t: Bool<'ctx>)
    ensures
        bool_node(t) == (BoolNode {
            home: bool_node(*a).home,
            term: Truth::Not(Box::new(bool_node(*a).term)),
        }),
{
    a.not()
}

/// `z3::Solver::new`. Taken on trust: the solver starts without
/// constraints.
#[verifier::external_body]
pub(crate) fn new_solver<'ctx>(ctx: &'ctx Context) -> (solver: Solver<'ctx>)
    ensures
        solver_view(solver) == (SolverView {
            home: context_id(*ctx),
            asserted: Seq::empty(),
            verdict: None,
        }),
{
    Solver::new(ctx)
}

/// `z3::Solver::assert`. Taken on trust: the solver holds one constraint
/// more, and what it answered before no longer counts.
#[verifier::external_body]
pub(crate) fn assert_fact<'ctx>(solver: &mut Solver<'ctx>, fact: &Bool<'ctx>)
    requires
        bool_node(*fact).home == solver_view(*old(solver)).home,
    ensures
        solver_view(*final(solver)) == (SolverView {
            home: solver_view(*old(solver)).home,
            asserted: solver_view(*old(solver)).asserted.push(bool_node(*fact).term),
            verdict: None,
        }),
{
    solver.assert(fact)
}

/// `z3::Solver::check`, with each answer under its name in this crate.
/// Taken on trust: an answer of `Unsat` means that no valuation meets all
/// the constraints. Nothing is promised of the other two answers here; see
/// [`model`].
#[verifier::external_body]
pub(crate) fn check<'ctx>(solver: &mut Solver<'ctx>) -> (verdict: Verdict)
    ensures
        solver_view(*final(solver)) == (SolverView {
            home: solver_view(*old(solver)).home,
            asserted: solver_view(*old(solver)).asserted,
            verdict: Some(verdict),
        }),
        verdict == Verdict::Unsat ==> forall|env: Valuation|
            !#[trigger] all_hold(solver_view(*old(solver)).asserted, env),
{
    match solver.check() {
        SatResult::Sat => Verdict::Sat,
        SatResult::Unsat => Verdict::Unsat,
        SatResult::Unknown => Verdict::Unknown,
    }
}

/// `z3::Solver::get_model`. Taken on trust: a model that comes after an
/// answer of `Sat` meets all the constraints. That a model comes is not
/// promised.
#[verifier::external_body]
pub(crate) fn model<'ctx>(solver: &Solver<'ctx>) -> (found: Option<Model<'ctx>>)
    ensures
        found matches Some(m) ==> model_view(m).home == solver_view(*solver).home && (
        solver_view(*solver).verdict == Some(Verdict::Sat) ==> all_hold(
            solver_view(*solver).asserted,
            valuation(m),
        )),
{
    solver.get_model()
}

/// `z3::Model::eval` on a boolean node. Taken on trust: the node that comes
/// back has, in the model, the value of the node that went in. That a node
/// comes back is not promised.
#[verifier::external_body]
pub(crate) fn evaluate<'ctx>(model: &Model<'ctx>, t: &Bool<'ctx>) -> (value: Option<Bool<'ctx>>)
    requires
        bool_node(*t).home == model_view(*model).home,
    ensures
        value matches Some(v) ==> bool_node(v).home == bool_node(*t).home && bool_node(
            v,
        ).term.holds(valuation(*model)) == bool_node(*t).term.holds(valuation(*model)),
{
    model.eval(t)
}

/// `z3::ast::Bool::as_bool`. Taken on trust: a value comes back only for a
/// node that is the literal of that value.
#[verifier::external_body]
pub(crate) fn literal<'ctx>(t: &Bool<'ctx>) -> (value: Option<bool>)
    ensures
        value matches Some(b) ==> bool_node(*t).term == Truth::Lit(b),
{
    t.as_bool()
}

} // verus!
