//! Cellular-automaton rules that turn an input grid into an output grid, and
//! the bookkeeping of the evolutionary search for their parameters.
//!
//! The library holds what is decided over integers: grids and their
//! reversible transforms, the step counters of the executors, tournament
//! selection, the slot order of the optimizer, the schedule of a training run,
//! recoloring plans and majority votes. Values of channels, weights and
//! fitnesses are real numbers and live with the caller.

pub mod augment;
pub mod constants;
pub mod criteria;
pub mod dataset;
pub mod env;
pub mod executors;
pub mod grid;
pub mod lmcma;
pub mod random;
pub mod selector;
pub mod solver;
pub mod substrate;
pub mod transforms;
pub mod utils;
pub mod voting;
