use vstd::prelude::*;

use crate::data::math::{coverage, estimate, extrapolate, pct_keyspace_sampled};
use crate::data::Data;
use crate::metadata::Metadata;

verus! {

/// The number of keys scaled up to the whole keyspace by the sampled fraction of it.
pub fn total_estimate(metadata: &Metadata, data: &Data, keys: &Vec<String>) -> (r: u64)
    ensures
        r == estimate(
            keys@.len() as int,
            coverage(data.samples_view().len() as int, metadata.total_keys as int),
        ),
{
    let fraction = pct_keyspace_sampled(metadata, data);
    extrapolate(keys.len() as u128, fraction)
}

} // verus!
