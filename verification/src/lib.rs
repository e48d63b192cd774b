//! Conway's Game of Life on a bounded grid, run forwards and backwards.
//!
//! [`Conway`] is one generation: a rectangle of cells with hard edges, where
//! every cell outside counts as dead. [`Conway::forward`] applies the
//! transition rule; [`Conway::backward`] asks the z3 solver for a grid that
//! the rule takes to a given one, or for the proof that there is none.
//!
//! The mathematical model of a grid is [`model::Grid`], and every contract
//! in this crate is stated over that model.
//!
//! - [`model`]: the grid and the rule as mathematics.
//! - [`laws`]: what follows from the rule.
//! - [`grid`]: the executable grid.
//! - [`life`]: one transition over the cells of a grid.
//! - [`formula`]: the formula of a reconstruction as mathematics.
//! - [`solver`]: the functions of z3 that this crate calls, on trust.
//! - [`encoder`]: the formula built in the solver.
//! - [`reconstruct`]: the session with the solver.

pub mod model;
pub mod laws;
pub mod grid;
pub mod life;
pub mod formula;
pub mod solver;
pub mod encoder;
pub mod reconstruct;

pub use grid::{Conway, OutOfBounds};
pub use reconstruct::{Outcome, SolverInconclusive};
pub use solver::Verdict;
