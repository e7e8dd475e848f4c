use vstd::prelude::*;

use crate::config::strings_view;
use crate::data::math::{ascending, percentile_hundredths, percentile_of_sorted, sort_ascending, Fraction};
use crate::data::Data;
use crate::stats::Stats;

verus! {

/// The time-to-live of each key, in the order of the keys.
pub open spec fn ttl_values_spec(data: Data, keys: Seq<Seq<char>>) -> Seq<i64> {
    keys.map_values(|k: Seq<char>| data.samples_view()[k].ttl->Sampled_0)
}

/// The values that are a real expiry (not negative), in order.
pub open spec fn expiries(s: Seq<i64>) -> Seq<u64>
    decreases s.len(),
{
    if s.len() == 0 {
        Seq::empty()
    } else if s.last() >= 0 {
        expiries(s.drop_last()).push(s.last() as u64)
    } else {
        expiries(s.drop_last())
    }
}

proof fn lemma_expiries_len(s: Seq<i64>)
    ensures
        expiries(s).len() <= s.len(),
    decreases s.len(),
{
    if s.len() > 0 {
        lemma_expiries_len(s.drop_last());
    }
}

fn ttl_values(data: &Data, keys: &Vec<String>) -> (r: Vec<i64>)
    requires
        data.sampled_all(strings_view(keys@), Stats::Ttl),
    ensures
        r@ == ttl_values_spec(*data, strings_view(keys@)),
{
    let mut r: Vec<i64> = Vec::new();
    let mut i: usize = 0;
    while i < keys.len()
        invariant
            i <= keys.len(),
            data.sampled_all(strings_view(keys@), Stats::Ttl),
            r@ == ttl_values_spec(*data, strings_view(keys@)).take(i as int),
        decreases keys.len() - i,
    {
        assert(strings_view(keys@)[i as int] == keys@[i as int]@);
        match data.get_sample(&keys[i]) {
            Some(s) => r.push(s.ttl()),
            None => {},
        }
        i += 1;
        assert(r@ =~= ttl_values_spec(*data, strings_view(keys@)).take(i as int));
    }
    assert(ttl_values_spec(*data, strings_view(keys@)).take(keys.len() as int) =~= ttl_values_spec(
        *data,
        strings_view(keys@),
    ));
    r
}

fn expiry_values(values: &Vec<i64>) -> (r: Vec<u64>)
    ensures
        r@ == expiries(values@),
{
    let mut r: Vec<u64> = Vec::new();
    let mut i: usize = 0;
    while i < values.len()
        invariant
            i <= values.len(),
            r@ == expiries(values@.take(i as int)),
        decreases values.len() - i,
    {
        assert(values@.take(i + 1).drop_last() == values@.take(i as int));
        if values[i] >= 0 {
            r.push(values[i] as u64);
        }
        i += 1;
    }
    assert(values@.take(values.len() as int) == values@);
    r
}

/// The share of the keys that have a real expiry (a time-to-live that is not
/// negative): `part` such keys out of `whole` keys; `0 / 0` for no keys.
pub fn pct_with_ttl(data: &Data, keys: &Vec<String>) -> (r: Fraction)
    requires
        data.sampled_all(strings_view(keys@), Stats::Ttl),
    ensures
        r.part == expiries(ttl_values_spec(*data, strings_view(keys@))).len(),
        r.whole == keys@.len(),
{
    let values = ttl_values(data, keys);
    let with_ttl = expiry_values(&values);
    proof {
        lemma_expiries_len(values@);
    }
    Fraction { part: with_ttl.len() as u64, whole: keys.len() as u64 }
}

/// The `pct`-th percentile of the real expiries among the keys, rounded to
/// the nearest second; zero when no key has an expiry.
pub fn percentile(data: &Data, keys: &Vec<String>, pct: u64) -> (r: u64)
    requires
        data.sampled_all(strings_view(keys@), Stats::Ttl),
        pct <= 100,
    ensures
        expiries(ttl_values_spec(*data, strings_view(keys@))).len() == 0 ==> r == 0,
        expiries(ttl_values_spec(*data, strings_view(keys@))).len() > 0 ==> r == (
        percentile_hundredths(ascending(expiries(ttl_values_spec(*data, strings_view(keys@)))), pct as int)
            + 50) / 100,
{
    let values = ttl_values(data, keys);
    let mut with_ttl = expiry_values(&values);
    sort_ascending(&mut with_ttl);
    if with_ttl.len() == 0 {
        0
    } else {
        let h = percentile_of_sorted(&with_ttl, pct);
        assert(h <= 0xffff_ffff_ffff_ffff * 100) by {
            crate::data::math::lemma_percentile_bound(with_ttl@, pct as int);
        }
        ((h + 50) / 100) as u64
    }
}

} // verus!
