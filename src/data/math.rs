use vstd::arithmetic::div_mod::lemma_fundamental_div_mod_converse;
use vstd::prelude::*;
use vstd::relations::sorted_by;

use crate::data::Data;
use crate::metadata::Metadata;

verus! {

broadcast use vstd::seq_lib::group_to_multiset_ensures;

/// `<=` on sample values, the order they are sorted by.
pub open spec fn le_u64() -> spec_fn(u64, u64) -> bool {
    |a: u64, b: u64| a <= b
}

/// The values in ascending order.
pub open spec fn ascending(s: Seq<u64>) -> Seq<u64> {
    s.sort_by(le_u64())
}

/// Two ascending sequences that hold the same values are equal.
pub proof fn lemma_sorted_unique(s: Seq<u64>, t: Seq<u64>)
    requires
        sorted_by(s, le_u64()),
        sorted_by(t, le_u64()),
        s.to_multiset() == t.to_multiset(),
    ensures
        s == t,
    decreases s.len(),
{
    assert(s.len() == s.to_multiset().len());
    assert(t.len() == t.to_multiset().len());
    if s.len() > 0 {
        let x = s.last();
        let y = t.last();
        assert(s.contains(x)) by {
            assert(s[s.len() - 1] == x);
        }
        assert(t.contains(y)) by {
            assert(t[t.len() - 1] == y);
        }
        assert(s.to_multiset().count(x) > 0);
        assert(t.contains(x));
        let i = choose|i: int| 0 <= i < t.len() && t[i] == x;
        if i < t.len() - 1 {
            assert(le_u64()(t[i], t[t.len() - 1]));
        }
        assert(t.to_multiset().count(y) > 0);
        assert(s.contains(y));
        let j = choose|j: int| 0 <= j < s.len() && s[j] == y;
        if j < s.len() - 1 {
            assert(le_u64()(s[j], s[s.len() - 1]));
        }
        assert(x == y);
        let s2 = s.drop_last();
        let t2 = t.drop_last();
        assert(s2.push(x) == s);
        assert(t2.push(y) == t);
        assert(s2.to_multiset() == s.to_multiset().remove(x)) by {
            assert(s.to_multiset() =~= s2.to_multiset().insert(x));
            assert(s.to_multiset().remove(x) =~= s2.to_multiset());
        }
        assert(t2.to_multiset() == t.to_multiset().remove(y)) by {
            assert(t.to_multiset() =~= t2.to_multiset().insert(y));
            assert(t.to_multiset().remove(y) =~= t2.to_multiset());
        }
        assert forall|a: int, b: int| 0 <= a < b < s2.len() implies #[trigger] le_u64()(s2[a], s2[b]) by {
            assert(le_u64()(s[a], s[b]));
        }
        assert forall|a: int, b: int| 0 <= a < b < t2.len() implies #[trigger] le_u64()(t2[a], t2[b]) by {
            assert(le_u64()(t[a], t[b]));
        }
        lemma_sorted_unique(s2, t2);
    } else {
        assert(s =~= t);
    }
}

/// Relies on `slice::sort_unstable`, which sorts the slice in ascending order,
/// keeping its elements.
#[verifier::external_body]
fn sort_unstable_u64(v: &mut Vec<u64>)
    ensures
        sorted_by(final(v)@, le_u64()),
        final(v)@.to_multiset() == old(v)@.to_multiset(),
{
    v.sort_unstable();
}

/// Sorts the values in ascending order.
pub fn sort_ascending(v: &mut Vec<u64>)
    ensures
        final(v)@ == ascending(old(v)@),
        final(v)@.len() == old(v)@.len(),
{
    let ghost before = v@;
    sort_unstable_u64(v);
    proof {
        before.lemma_sort_by_ensures(le_u64());
        lemma_sorted_unique(v@, ascending(before));
        assert(v@.len() == v@.to_multiset().len());
        assert(before.len() == before.to_multiset().len());
    }
}

/// The `p`-th percentile of the values, in hundredths, by linear interpolation
/// between the two values around rank `p/100 * (n - 1)`.
pub open spec fn percentile_hundredths(s: Seq<u64>, p: int) -> int {
    if s.len() == 1 {
        100 * s[0]
    } else if p == 100 {
        100 * s[s.len() - 1]
    } else {
        let t = p * (s.len() - 1);
        let lo = t / 100;
        let frac = t % 100;
        s[lo] * (100 - frac) + s[lo + 1] * frac
    }
}

/// The `pct`-th percentile of a sorted list, in hundredths: the rank
/// `pct/100 * (n - 1)` is split into a whole and a fractional part, and the
/// result blends the two neighbouring values linearly. The 100th percentile is
/// the last value and a single value is every percentile.
pub fn percentile_of_sorted(sorted_samples: &Vec<u64>, pct: u64) -> (r: u128)
    requires
        sorted_samples.len() >= 1,
        pct <= 100,
    ensures
        r == percentile_hundredths(sorted_samples@, pct as int),
{
    let n = sorted_samples.len();
    if n == 1 {
        return 100 * (sorted_samples[0] as u128);
    }
    if pct == 100 {
        return 100 * (sorted_samples[n - 1] as u128);
    }
    let len = (n - 1) as u128;
    assert(pct * len <= 100 * len) by (nonlinear_arith)
        requires
            pct <= 100,
    ;
    let t: u128 = (pct as u128) * len;
    let lo_rank = t / 100;
    let frac = t % 100;
    assert(lo_rank < len) by (nonlinear_arith)
        requires
            t == pct * len,
            pct < 100,
            lo_rank == t / 100,
            len > 0,
    ;
    let lo = sorted_samples[lo_rank as usize] as u128;
    let hi = sorted_samples[lo_rank as usize + 1] as u128;
    assert(lo * (100 - frac) <= 0xffff_ffff_ffff_ffff * 100) by (nonlinear_arith)
        requires
            lo <= 0xffff_ffff_ffff_ffff,
            frac < 100,
    ;
    assert(hi * frac <= 0xffff_ffff_ffff_ffff * 100) by (nonlinear_arith)
        requires
            hi <= 0xffff_ffff_ffff_ffff,
            frac < 100,
    ;
    lo * (100 - frac) + hi * frac
}

/// A percentile never exceeds a hundred times the largest possible value.
pub proof fn lemma_percentile_bound(s: Seq<u64>, p: int)
    requires
        s.len() >= 1,
        0 <= p <= 100,
    ensures
        0 <= percentile_hundredths(s, p) <= 0xffff_ffff_ffff_ffff * 100,
{
    if s.len() > 1 && p < 100 {
        let t = p * (s.len() - 1);
        assert(0 <= t < 100 * (s.len() - 1)) by (nonlinear_arith)
            requires
                t == p * (s.len() - 1),
                0 <= p < 100,
                s.len() > 1,
        ;
        let lo = t / 100;
        let frac = t % 100;
        assert(0 <= lo < s.len() - 1);
        let a = s[lo];
        let b = s[lo + 1];
        assert(a * (100 - frac) + b * frac <= 0xffff_ffff_ffff_ffff * 100) by (nonlinear_arith)
            requires
                0 <= a <= 0xffff_ffff_ffff_ffff,
                0 <= b <= 0xffff_ffff_ffff_ffff,
                0 <= frac < 100,
        ;
        assert(a * (100 - frac) + b * frac >= 0) by (nonlinear_arith)
            requires
                0 <= a,
                0 <= b,
                0 <= frac < 100,
        ;
    }
}

/// The lowest percentile is the first value, the 100th is the last, and a
/// single value is every percentile.
pub proof fn lemma_percentile_ends(s: Seq<u64>, p: int)
    requires
        s.len() >= 1,
        0 <= p <= 100,
    ensures
        percentile_hundredths(s, 0) == 100 * s[0],
        percentile_hundredths(s, 100) == 100 * s[s.len() - 1],
        s.len() == 1 ==> percentile_hundredths(s, p) == 100 * s[0],
{
    if s.len() > 1 {
        let t = 0 * (s.len() - 1);
        assert(t == 0);
        assert(t / 100 == 0 && t % 100 == 0);
        assert(s[1] * 0 == 0);
    }
}

/// A fraction `part / whole`; a zero `whole` stands for zero.
#[derive(PartialEq, Eq, Structural, Clone, Copy, Debug)]
pub struct Fraction {
    pub part: u64,
    pub whole: u64,
}

/// The sampled share of the keyspace, `count / total`, never more than one.
pub open spec fn coverage(count: int, total: int) -> Fraction {
    if count <= total {
        Fraction { part: count as u64, whole: total as u64 }
    } else {
        Fraction { part: 1, whole: 1 }
    }
}

/// The fraction of the keyspace sampled so far: sampled keys over the keys the
/// store reports, clamped to one when more keys were sampled than reported.
pub fn pct_keyspace_sampled(metadata: &Metadata, data: &Data) -> (r: Fraction)
    ensures
        r == coverage(data.samples_view().len() as int, metadata.total_keys as int),
        r.part <= r.whole,
{
    let count = data.count() as u64;
    if count <= metadata.total_keys {
        Fraction { part: count, whole: metadata.total_keys }
    } else {
        Fraction { part: 1, whole: 1 }
    }
}

/// `a / b` rounded to the nearest integer, halves away from zero (`a >= 0`, `b > 0`).
pub open spec fn rounded_quotient(a: int, b: int) -> int {
    (2 * a + b) / (2 * b)
}

/// A sampled value scaled up to the whole keyspace: `value / (part / whole)`,
/// rounded to the nearest integer and capped at `u64::MAX`. Nothing sampled
/// extrapolates a zero value to zero and any other value to the cap.
pub open spec fn estimate(value: int, f: Fraction) -> int {
    if f.part == 0 {
        if value == 0 {
            0
        } else {
            u64::MAX as int
        }
    } else {
        let q = rounded_quotient(value * f.whole, f.part as int);
        if q > u64::MAX {
            u64::MAX as int
        } else {
            q
        }
    }
}

/// Scales a sampled value up to the whole keyspace by the sampled fraction.
pub fn extrapolate(value: u128, f: Fraction) -> (r: u64)
    requires
        f.part <= f.whole,
    ensures
        r == estimate(value as int, f),
{
    if f.part == 0 {
        return if value == 0 {
            0
        } else {
            u64::MAX
        };
    }
    let p = f.part as u128;
    let w = f.whole as u128;
    if value > u64::MAX as u128 {
        assert(rounded_quotient(value * w, p as int) >= value) by {
            assert(value * w >= value * p) by (nonlinear_arith)
                requires
                    w >= p,
            ;
            assert((2 * (value * w) + p) >= value * (2 * p)) by (nonlinear_arith)
                requires
                    value * w >= value * p,
            ;
            assert((value * (2 * p)) / (2 * p) == value) by (nonlinear_arith)
                requires
                    p > 0,
            ;
            vstd::arithmetic::div_mod::lemma_div_is_ordered(
                value * (2 * p) as int,
                2 * (value * w) + p,
                2 * p as int,
            );
        }
        return u64::MAX;
    }
    assert(value * w <= 0xffff_ffff_ffff_ffff * 0xffff_ffff_ffff_ffff) by (nonlinear_arith)
        requires
            value <= 0xffff_ffff_ffff_ffff,
            w <= 0xffff_ffff_ffff_ffff,
    ;
    let a: u128 = value * w;
    let q = a / p;
    let rem = a % p;
    let rq: u128 = if 2 * rem >= p {
        q + 1
    } else {
        q
    };
    proof {
        vstd::arithmetic::div_mod::lemma_fundamental_div_mod(a as int, p as int);
        let m = q * p;
        assert(a == m + rem);
        assert(rq * (2 * p) == 2 * m + (if 2 * rem >= p { 2 * p } else { 0 })) by (nonlinear_arith)
            requires
                m == q * p,
                rq == (if 2 * rem >= p { q + 1 } else { q as int }),
        ;
        lemma_fundamental_div_mod_converse(
            2 * a + p,
            2 * p as int,
            rq as int,
            2 * a + p - rq * (2 * p),
        );
    }
    if rq > u64::MAX as u128 {
        u64::MAX
    } else {
        rq as u64
    }
}

} // verus!
