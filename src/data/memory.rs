use vstd::prelude::*;

use crate::config::strings_view;
use crate::data::math::{
    ascending, coverage, estimate, extrapolate, pct_keyspace_sampled, percentile_hundredths,
    percentile_of_sorted, sort_ascending,
};
use crate::data::Data;
use crate::metadata::Metadata;
use crate::stats::Stats;

verus! {

/// The memory of each key, in the order of the keys.
pub open spec fn memory_values_spec(data: Data, keys: Seq<Seq<char>>) -> Seq<u64> {
    keys.map_values(|k: Seq<char>| data.samples_view()[k].memory->Sampled_0)
}

/// The sum of the values.
pub open spec fn sum(s: Seq<u64>) -> int
    decreases s.len(),
{
    if s.len() == 0 {
        0
    } else {
        sum(s.drop_last()) + s.last()
    }
}

proof fn lemma_sum_bound(s: Seq<u64>)
    ensures
        0 <= sum(s) <= s.len() * 0xffff_ffff_ffff_ffff,
    decreases s.len(),
{
    if s.len() > 0 {
        lemma_sum_bound(s.drop_last());
        assert((s.len() - 1) * 0xffff_ffff_ffff_ffff + 0xffff_ffff_ffff_ffff == s.len()
            * 0xffff_ffff_ffff_ffff) by (nonlinear_arith);
    }
}

/// The memory of each key, in the order of the keys.
pub fn memory_values(data: &Data, keys: &Vec<String>) -> (r: Vec<u64>)
    requires
        data.sampled_all(strings_view(keys@), Stats::Memory),
    ensures
        r@ == memory_values_spec(*data, strings_view(keys@)),
{
    let mut r: Vec<u64> = Vec::new();
    let mut i: usize = 0;
    while i < keys.len()
        invariant
            i <= keys.len(),
            data.sampled_all(strings_view(keys@), Stats::Memory),
            r@ == memory_values_spec(*data, strings_view(keys@)).take(i as int),
        decreases keys.len() - i,
    {
        assert(strings_view(keys@)[i as int] == keys@[i as int]@);
        let s = data.get_sample(&keys[i]);
        match s {
            Some(s) => r.push(s.memory()),
            None => {},
        }
        i += 1;
        assert(r@ =~= memory_values_spec(*data, strings_view(keys@)).take(i as int));
    }
    assert(memory_values_spec(*data, strings_view(keys@)).take(keys.len() as int) =~= memory_values_spec(
        *data,
        strings_view(keys@),
    ));
    r
}

/// The summed memory of the keys, in bytes.
pub fn total(data: &Data, keys: &Vec<String>) -> (r: u128)
    requires
        data.sampled_all(strings_view(keys@), Stats::Memory),
    ensures
        r == sum(memory_values_spec(*data, strings_view(keys@))),
{
    let values = memory_values(data, keys);
    let mut acc: u128 = 0;
    let mut i: usize = 0;
    while i < values.len()
        invariant
            i <= values.len(),
            acc == sum(values@.take(i as int)),
        decreases values.len() - i,
    {
        proof {
            assert(values@.take(i + 1).drop_last() == values@.take(i as int));
            lemma_sum_bound(values@.take(i + 1));
            assert((i + 1) * 0xffff_ffff_ffff_ffff <= 0x1_0000_0000_0000_0000 * 0xffff_ffff_ffff_ffff)
                by (nonlinear_arith)
                requires
                    i < 0x1_0000_0000_0000_0000,
            ;
        }
        acc = acc + values[i] as u128;
        i += 1;
    }
    assert(values@.take(values.len() as int) == values@);
    acc
}

/// The summed memory of the keys scaled up to the whole keyspace by the
/// sampled fraction of it, in bytes.
pub fn total_estimate(metadata: &Metadata, data: &Data, keys: &Vec<String>) -> (r: u64)
    requires
        data.sampled_all(strings_view(keys@), Stats::Memory),
    ensures
        r == estimate(
            sum(memory_values_spec(*data, strings_view(keys@))),
            coverage(data.samples_view().len() as int, metadata.total_keys as int),
        ),
{
    let fraction = pct_keyspace_sampled(metadata, data);
    let sampled_total = total(data, keys);
    extrapolate(sampled_total, fraction)
}

/// The `pct`-th percentile of the keys' memory, in hundredths of a byte; zero
/// when there are no keys.
pub fn percentile(data: &Data, keys: &Vec<String>, pct: u64) -> (r: u128)
    requires
        data.sampled_all(strings_view(keys@), Stats::Memory),
        pct <= 100,
    ensures
        keys@.len() == 0 ==> r == 0,
        keys@.len() > 0 ==> r == percentile_hundredths(
            ascending(memory_values_spec(*data, strings_view(keys@))),
            pct as int,
        ),
{
    let mut values = memory_values(data, keys);
    sort_ascending(&mut values);
    if values.len() == 0 {
        0
    } else {
        percentile_of_sorted(&values, pct)
    }
}

} // verus!
