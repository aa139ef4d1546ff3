//! A verified evaluator for interaction combinators.
//!
//! A net is a set of agents joined by single-assignment wires, all held in
//! a fixed-capacity arena. Evaluation drains the equations of the net and
//! rewrites active pairs by the rules of the calculus until none is left.
//! Tasks are taken one after another from an explicit queue, so that an
//! evaluation is a function of the net it starts from; every function of
//! the evaluator is specified by its counterpart in a model on values.
//!
//! * [`strandal`] is the labelled calculus, with erasers, lambdas,
//!   applications and duplicators: the arena, the wires, the net and its
//!   textual syntax, the evaluator, and what holds of every evaluation.
//! * [`icomb`] is the calculus with constructors and duplicators only, in
//!   which equations are classified when they are built.
//! * [`lambda`] builds a few small nets.

pub mod arena;
pub mod fault;
pub mod icomb;
pub mod lambda;
pub mod strandal;
pub mod text;
