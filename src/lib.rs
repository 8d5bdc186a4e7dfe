//! A vector whose elements live inline in a fixed array of `N` slots.
//!
//! A slot that holds no live element is `None`. The live elements always occupy
//! the first `len` slots; every operation keeps that prefix intact, including the
//! range-removal guard `Drain` and the range-replacement guard `Splice`.

mod array_vec;
mod array_vec_error;
mod drain;
mod laws;
mod marks;
mod splice;

pub use array_vec::ArrayVec;
pub use array_vec_error::ArrayVecError;
pub use drain::{pop_order, Drain};
pub use laws::{lemma_drain_law, lemma_pop_push_round_trip};
pub use marks::{last_kept, run_marks, same_key, select};
pub use splice::Splice;
