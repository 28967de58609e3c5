//! Traces, algebraic constraints and arithmetic gadgets over the Mersenne-31
//! prime field, with the contracts of every operation proved.
//!
//! A computation is described twice over. As a trace ([`matrix`]) with a
//! constraint set ([`air`]) that the evaluator ([`evaluator`]) checks row by
//! row: [`fib`] and [`poly_add`] are two such computations. And as a circuit
//! ([`circuit`]) with a witness ([`witness`]), to which gadgets ([`gadgets`])
//! add what no single constraint says: [`circuits`] holds the same two
//! computations in that form.

pub mod air;
pub mod circuit;
pub mod circuits;
pub mod error;
pub mod evaluator;
pub mod fib;
pub mod field;
pub mod gadgets;
pub mod matrix;
pub mod poly_add;
pub mod witness;
