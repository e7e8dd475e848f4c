use vstd::prelude::*;

pub mod sample_all;
pub mod sample_random;

verus! {

/// Which key-discovery strategy a run uses.
#[derive(PartialEq, Eq, Structural, Clone, Copy, Debug)]
pub enum SampleMode {
    /// Walk the whole keyspace with the store's cursor.
    All,
    /// Draw random keys until the target count is reached or draws stop finding new keys.
    Random,
}

} // verus!
