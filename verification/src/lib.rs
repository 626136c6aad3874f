use vstd::prelude::*;

pub mod agg;
pub mod masses;
pub mod rounds;
pub mod sample;
pub mod subset;

verus! {

/// Default size of the slot universe.
pub const VECTOR_LENGTH: usize = 16384;

/// Default number of slots drawn into one batch.
pub const SHUFFLE_SIZE: usize = 128;

/// Default upper bound on the number of rounds in one trial.
pub const MAX_SHUFFLES: usize = 4000;

/// Default number of trials run for one configuration.
pub const NUMBER_OF_REPETITIONS: usize = 1000;

} // verus!
