//! Orchestration logic for simulated annealing that can be stated over
//! integers: dependency graphs checked for cycles and ordered
//! topologically, move bookkeeping, selection of the best trial, and the
//! index checks of a conserving transfer.

pub mod graph;
pub mod selection;
pub mod stats;
pub mod transfer;
