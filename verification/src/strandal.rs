//! The labelled calculus: erasers, lambdas, applications and duplicators.
//!
//! `store`, `term`, `var` and `net` hold the data; `syntax` and `parser`
//! read a net from text and `display` writes terms as text; `runtime` is
//! the evaluator and `stats` its counters. `machine` is the evaluator as a
//! function on values. The other modules state what holds of every
//! evaluation: `symmetry`, `counting`, `wires` and `slots` of any net,
//! `cables` and `linear` of nets in which every agent is referenced once
//! and every wire twice, `crossing` of the net of two duplicators that
//! cross.

pub mod cables;
pub mod counting;
pub mod crossing;
pub mod display;
pub mod linear;
pub mod machine;
pub mod net;
pub mod parser;
pub mod runtime;
pub mod slots;
pub mod stats;
pub mod store;
pub mod symmetry;
pub mod syntax;
pub mod term;
pub mod var;
pub mod wires;
