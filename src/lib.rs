//! Staged viability scoring for candidate universes: the decision logic of the
//! tier cascade, the names given to tiers, and the lattice automaton that the
//! live viewer animates.

pub mod cascade;
pub mod grid;
pub mod labels;
pub mod validation;
