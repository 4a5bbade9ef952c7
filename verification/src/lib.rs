//! An interactive sum-check protocol for claims of the form
//! `sum over the boolean hypercube of a product of multilinear factors == C`.
//!
//! A Prover builds dense evaluation tables for the factors and emits one
//! low-degree univariate round message per variable; a Verifier checks each
//! message against its running target, answers with a random field challenge,
//! and finishes with a single oracle evaluation of the original factors.

pub mod field;
pub mod polynomial;
pub mod protocol;
