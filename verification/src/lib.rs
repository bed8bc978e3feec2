//! A fuzzy first-order resolution prover.
//!
//! Clauses are disjunctions of literals over predicates, constants, variables
//! and function terms.  Two symbols unify when a caller-supplied comparator
//! scores them above a threshold, so a proof carries the lowest score met on
//! its path.  The executable code is verified against mathematical models of
//! terms, clauses and substitutions.

pub mod order;
pub mod prover;
pub mod types;
pub mod util;
