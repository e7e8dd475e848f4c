use vstd::prelude::*;

use crate::config::strings_view;
use crate::data::math::Fraction;
use crate::data::Data;
use crate::stats::Stats;

verus! {

/// The type of each key, in the order of the keys.
pub open spec fn types_spec(data: Data, keys: Seq<Seq<char>>) -> Seq<Seq<char>> {
    keys.map_values(|k: Seq<char>| data.samples_view()[k].type_->Sampled_0@)
}

/// How often `x` occurs in `s`.
pub open spec fn count_of(s: Seq<Seq<char>>, x: Seq<char>) -> nat
    decreases s.len(),
{
    if s.len() == 0 {
        0
    } else {
        count_of(s.drop_last(), x) + if s.last() == x {
            1nat
        } else {
            0nat
        }
    }
}

/// The names of a list of (name, number) pairs.
pub open spec fn names<N>(r: Seq<(String, N)>) -> Seq<Seq<char>> {
    r.map_values(|e: (String, N)| e.0@)
}

/// `r` lists each distinct type of `types` once, with the number of its occurrences.
pub open spec fn counts_types(r: Seq<(String, usize)>, types: Seq<Seq<char>>) -> bool {
    &&& names(r).no_duplicates()
    &&& forall|i: int|
        0 <= i < r.len() ==> types.contains(#[trigger] r[i].0@) && r[i].1 == count_of(types, r[i].0@)
    &&& forall|t: Seq<char>| #[trigger] types.contains(t) ==> names(r).contains(t)
}

/// The counts do not increase along the list.
pub open spec fn by_count_desc<N>(r: Seq<(N, usize)>) -> bool {
    forall|i: int, j: int| 0 <= i < j < r.len() ==> #[trigger] r[i].1 >= #[trigger] r[j].1
}

proof fn lemma_count_absent(s: Seq<Seq<char>>, x: Seq<char>)
    requires
        !s.contains(x),
    ensures
        count_of(s, x) == 0,
    decreases s.len(),
{
    if s.len() > 0 {
        assert(s[s.len() - 1] == s.last());
        assert forall|y: Seq<char>| s.drop_last().contains(y) implies s.contains(y) by {
            let j = choose|j: int| 0 <= j < s.drop_last().len() && s.drop_last()[j] == y;
            assert(s[j] == y);
        }
        lemma_count_absent(s.drop_last(), x);
    }
}

proof fn lemma_count_le_len(s: Seq<Seq<char>>, x: Seq<char>)
    ensures
        count_of(s, x) <= s.len(),
    decreases s.len(),
{
    if s.len() > 0 {
        lemma_count_le_len(s.drop_last(), x);
    }
}

fn types_of(data: &Data, keys: &Vec<String>) -> (r: Vec<String>)
    requires
        data.sampled_all(strings_view(keys@), Stats::Type),
    ensures
        strings_view(r@) == types_spec(*data, strings_view(keys@)),
{
    let mut r: Vec<String> = Vec::new();
    let mut i: usize = 0;
    while i < keys.len()
        invariant
            i <= keys.len(),
            data.sampled_all(strings_view(keys@), Stats::Type),
            strings_view(r@) == types_spec(*data, strings_view(keys@)).take(i as int),
        decreases keys.len() - i,
    {
        assert(strings_view(keys@)[i as int] == keys@[i as int]@);
        let ghost before = r@;
        match data.get_sample(&keys[i]) {
            Some(s) => {
                let t = s.type_();
                assert(t@ == types_spec(*data, strings_view(keys@))[i as int]);
                r.push(t);
                assert(strings_view(r@) =~= strings_view(before).push(t@));
            },
            None => {},
        }
        i += 1;
        assert(strings_view(r@) =~= types_spec(*data, strings_view(keys@)).take(i as int));
    }
    assert(types_spec(*data, strings_view(keys@)).take(keys.len() as int) =~= types_spec(
        *data,
        strings_view(keys@),
    ));
    r
}

/// Each entry is a type of `tv` paired with its number of occurrences.
pub open spec fn counted(r: Seq<(String, usize)>, tv: Seq<Seq<char>>) -> bool {
    forall|k: int| 0 <= k < r.len() ==> tv.contains(#[trigger] r[k].0@) && r[k].1 == count_of(tv, r[k].0@)
}

/// Inserting an entry before the first smaller count keeps the list ordered by count.
proof fn lemma_insert_ordered(before: Seq<(String, usize)>, p: int, e: (String, usize))
    requires
        0 <= p <= before.len(),
        by_count_desc(before),
        forall|k: int| 0 <= k < p ==> (#[trigger] before[k]).1 >= e.1,
        p < before.len() ==> before[p].1 < e.1,
    ensures
        by_count_desc(before.insert(p, e)),
{
    let out = before.insert(p, e);
    assert forall|a: int, b: int| 0 <= a < b < out.len() implies #[trigger] out[a].1 >= #[trigger] out[b].1 by {
        if b < p {
            assert(before[a].1 >= before[b].1);
        } else if b == p {
            assert(before[a].1 >= e.1);
        } else if a < p {
            assert(before[a].1 >= e.1);
            assert(before[p].1 < e.1);
            if b - 1 > p {
                assert(before[p].1 >= before[b - 1].1);
            }
        } else if a == p {
            assert(before[p].1 < e.1);
            if b - 1 > p {
                assert(before[p].1 >= before[b - 1].1);
            }
        } else {
            assert(before[a - 1].1 >= before[b - 1].1);
        }
    }
}

/// Inserting an entry with a new name keeps the names free of repeats, keeps
/// every name that was there and adds the new one.
proof fn lemma_insert_names(before: Seq<(String, usize)>, p: int, e: (String, usize))
    requires
        0 <= p <= before.len(),
        names(before).no_duplicates(),
        !names(before).contains(e.0@),
    ensures
        names(before.insert(p, e)).no_duplicates(),
        names(before.insert(p, e)).contains(e.0@),
        forall|x: Seq<char>| #[trigger] names(before).contains(x) ==> names(before.insert(p, e)).contains(x),
        forall|x: Seq<char>| #[trigger] names(before.insert(p, e)).contains(x) ==> names(before).contains(x) || x == e.0@,
{
    let out = before.insert(p, e);
    assert(names(out) =~= names(before).insert(p, e.0@));
    assert forall|a: int, b: int| 0 <= a < b < names(out).len() implies names(out)[a] != names(out)[b] by {
        if a == p {
            assert(names(before)[b - 1] != e.0@);
        } else if b == p {
            assert(names(before)[a] != e.0@);
        } else {
            let a2 = if a < p { a } else { a - 1 };
            let b2 = if b < p { b } else { b - 1 };
            assert(names(before)[a2] != names(before)[b2]);
        }
    }
    assert(names(out)[p] == e.0@);
    assert forall|x: Seq<char>| #[trigger] names(before).contains(x) implies names(out).contains(x) by {
        let k = choose|k: int| 0 <= k < names(before).len() && names(before)[k] == x;
        if k < p {
            assert(names(out)[k] == x);
        } else {
            assert(names(out)[k + 1] == x);
        }
    }
    assert forall|x: Seq<char>| #[trigger] names(out).contains(x) implies names(before).contains(x) || x == e.0@ by {
        let k = choose|k: int| 0 <= k < names(out).len() && names(out)[k] == x;
        if k < p {
            assert(names(before)[k] == x);
        } else if k > p {
            assert(names(before)[k - 1] == x);
        }
    }
}

/// The distinct types in the order they are first met, with their counts.
fn count_in_order(types: &Vec<String>) -> (r: Vec<(String, usize)>)
    ensures
        counts_types(r@, strings_view(types@)),
{
    let ghost tv = strings_view(types@);
    let mut out: Vec<(String, usize)> = Vec::new();
    let mut i: usize = 0;
    while i < types.len()
        invariant
            i <= types.len(),
            tv == strings_view(types@),
            counts_types(out@, tv.take(i as int)),
        decreases types.len() - i,
    {
        let t = &types[i];
        let ghost pre = tv.take(i as int);
        let ghost post = tv.take(i + 1);
        assert(post.drop_last() == pre);
        assert(post.last() == t@);
        assert forall|y: Seq<char>| #[trigger] post.contains(y) <==> (pre.contains(y) || y == t@) by {
            if pre.contains(y) {
                let j = choose|j: int| 0 <= j < pre.len() && pre[j] == y;
                assert(post[j] == y);
            }
            if y == t@ {
                assert(post[i as int] == y);
            }
            if post.contains(y) && y != t@ {
                let j = choose|j: int| 0 <= j < post.len() && post[j] == y;
                assert(pre[j] == y);
            }
        }
        let mut j: usize = 0;
        while j < out.len() && !(out[j].0 == *t)
            invariant
                j <= out.len(),
                forall|k: int| 0 <= k < j ==> (#[trigger] out@[k]).0@ != t@,
            decreases out.len() - j,
        {
            j += 1;
        }
        let found = j < out.len();
        let ghost before = out@;
        if found {
            let name = out[j].0.clone();
            let c = out[j].1;
            proof {
                lemma_count_le_len(pre, t@);
            }
            out.set(j, (name, c + 1));
            proof {
                assert(names(out@) =~= names(before));
                assert(before[j as int].0@ == t@);
                assert(before[j as int].1 == count_of(pre, t@));
                assert(out@[j as int].0@ == t@);
                assert(out@[j as int].1 == count_of(pre, t@) + 1);
                assert(count_of(post, t@) == count_of(pre, t@) + 1);
                assert forall|k: int| 0 <= k < out@.len() implies post.contains(#[trigger] out@[k].0@)
                    && out@[k].1 == count_of(post, out@[k].0@) by {
                    assert(pre.contains(before[k].0@));
                    assert(post.contains(before[k].0@));
                    if k != j {
                        assert(out@[k] == before[k]);
                        assert(before[k].0@ != t@) by {
                            assert(names(before)[k] != names(before)[j as int]);
                        }
                        assert(count_of(post, before[k].0@) == count_of(pre, before[k].0@));
                    }
                }
                assert forall|y: Seq<char>| #[trigger] post.contains(y) implies names(out@).contains(y) by {
                    if y == t@ {
                        assert(names(out@)[j as int] == y);
                    } else {
                        assert(pre.contains(y));
                        assert(names(before).contains(y));
                        let k = choose|k: int| 0 <= k < names(before).len() && names(before)[k] == y;
                        assert(names(out@)[k] == y);
                    }
                }
            }
        } else {
            proof {
                assert(!names(before).contains(t@)) by {
                    if names(before).contains(t@) {
                        let k = choose|k: int| 0 <= k < names(before).len() && names(before)[k] == t@;
                        assert(before[k].0@ == t@);
                    }
                }
                lemma_count_absent(pre, t@);
            }
            out.push((t.clone(), 1));
            proof {
                assert(names(out@) =~= names(before).push(t@));
                assert forall|k: int| 0 <= k < out@.len() implies post.contains(#[trigger] out@[k].0@)
                    && out@[k].1 == count_of(post, out@[k].0@) by {
                    if k < before.len() {
                        assert(out@[k] == before[k]);
                        assert(pre.contains(before[k].0@));
                        assert(names(before)[k] == before[k].0@);
                        assert(count_of(post, before[k].0@) == count_of(pre, before[k].0@));
                    } else {
                        assert(count_of(post, t@) == count_of(pre, t@) + 1);
                    }
                }
                assert forall|y: Seq<char>| #[trigger] post.contains(y) implies names(out@).contains(y) by {
                    if y == t@ {
                        assert(names(out@)[before.len() as int] == y);
                    } else {
                        let k = choose|k: int| 0 <= k < names(before).len() && names(before)[k] == y;
                        assert(names(out@)[k] == y);
                    }
                }
            }
        }
        i += 1;
    }
    assert(tv.take(types.len() as int) == tv);
    out
}

/// The distinct types among the keys with the number of keys of each, the
/// most frequent first; the order of equal counts is not specified.
pub fn type_counts(data: &Data, keys: &Vec<String>) -> (r: Vec<(String, usize)>)
    requires
        data.sampled_all(strings_view(keys@), Stats::Type),
    ensures
        counts_types(r@, types_spec(*data, strings_view(keys@))),
        by_count_desc(r@),
{
    let types = types_of(data, keys);
    let entries = count_in_order(&types);
    let ghost tv = strings_view(types@);
    let mut out: Vec<(String, usize)> = Vec::new();
    let mut i: usize = 0;
    while i < entries.len()
        invariant
            i <= entries.len(),
            counts_types(entries@, tv),
            counted(out@, tv),
            names(out@).no_duplicates(),
            by_count_desc(out@),
            forall|x: Seq<char>| #[trigger] names(out@).contains(x) ==> names(entries@.take(i as int)).contains(x),
            forall|x: Seq<char>| #[trigger] names(entries@.take(i as int)).contains(x) ==> names(out@).contains(x),
        decreases entries.len() - i,
    {
        let c = entries[i].1;
        let mut p: usize = 0;
        while p < out.len() && out[p].1 >= c
            invariant
                p <= out.len(),
                forall|k: int| 0 <= k < p ==> (#[trigger] out@[k]).1 >= c,
            decreases out.len() - p,
        {
            p += 1;
        }
        let e = (entries[i].0.clone(), c);
        let ghost before = out@;
        let ghost pre = names(entries@.take(i as int));
        let ghost post = names(entries@.take(i + 1));
        proof {
            assert(post =~= pre.push(e.0@));
            assert(names(entries@)[i as int] == e.0@);
            assert(!pre.contains(e.0@)) by {
                if pre.contains(e.0@) {
                    let m = choose|m: int| 0 <= m < pre.len() && pre[m] == e.0@;
                    assert(names(entries@)[m] == names(entries@)[i as int]);
                }
            }
            assert(!names(before).contains(e.0@));
            assert(tv.contains(entries@[i as int].0@));
            lemma_insert_ordered(before, p as int, e);
            lemma_insert_names(before, p as int, e);
        }
        out.insert(p, e);
        proof {
            assert(out@ == before.insert(p as int, e));
            assert forall|k: int| 0 <= k < out@.len() implies tv.contains(#[trigger] out@[k].0@) && out@[k].1 == count_of(tv, out@[k].0@) by {
                if k < p {
                    assert(out@[k] == before[k]);
                } else if k > p {
                    assert(out@[k] == before[k - 1]);
                }
            }
            assert forall|x: Seq<char>| #[trigger] names(out@).contains(x) implies post.contains(x) by {
                if names(before).contains(x) {
                    assert(pre.contains(x));
                    let m = choose|m: int| 0 <= m < pre.len() && pre[m] == x;
                    assert(post[m] == x);
                } else {
                    assert(post[i as int] == x);
                }
            }
            assert forall|x: Seq<char>| #[trigger] post.contains(x) implies names(out@).contains(x) by {
                let m = choose|m: int| 0 <= m < post.len() && post[m] == x;
                if m < i {
                    assert(pre[m] == x);
                    assert(pre.contains(x));
                    assert(names(before).contains(x));
                } else {
                    assert(x == e.0@);
                }
            }
        }
        i += 1;
    }
    proof {
        assert(entries@.take(entries.len() as int) == entries@);
        assert forall|t: Seq<char>| #[trigger] tv.contains(t) implies names(out@).contains(t) by {
            assert(names(entries@).contains(t));
        }
    }
    out
}

/// Each distinct type among the keys with its share of the keys (its count
/// out of the number of keys), the most frequent first.
pub fn type_pcts(data: &Data, keys: &Vec<String>) -> (r: Vec<(String, Fraction)>)
    requires
        data.sampled_all(strings_view(keys@), Stats::Type),
    ensures
        names(r@).no_duplicates(),
        forall|i: int|
            0 <= i < r@.len() ==> {
                &&& types_spec(*data, strings_view(keys@)).contains(#[trigger] r@[i].0@)
                &&& r@[i].1.part == count_of(types_spec(*data, strings_view(keys@)), r@[i].0@)
                &&& r@[i].1.whole == keys@.len()
            },
        forall|t: Seq<char>| #[trigger] types_spec(*data, strings_view(keys@)).contains(t) ==> names(r@).contains(t),
        forall|i: int, j: int| 0 <= i < j < r@.len() ==> #[trigger] r@[i].1.part >= #[trigger] r@[j].1.part,
{
    let counts = type_counts(data, keys);
    let ghost tv = types_spec(*data, strings_view(keys@));
    let mut out: Vec<(String, Fraction)> = Vec::new();
    let mut i: usize = 0;
    while i < counts.len()
        invariant
            i <= counts.len(),
            counts_types(counts@, tv),
            by_count_desc(counts@),
            tv.len() == keys@.len(),
            out@.len() == i,
            forall|k: int| 0 <= k < i ==> {
                &&& (#[trigger] out@[k]).0 == counts@[k].0
                &&& out@[k].1.part == counts@[k].1
                &&& out@[k].1.whole == keys@.len()
            },
        decreases counts.len() - i,
    {
        let f = Fraction { part: counts[i].1 as u64, whole: keys.len() as u64 };
        out.push((counts[i].0.clone(), f));
        i += 1;
    }
    proof {
        assert(names(out@) =~= names(counts@));
        assert forall|t: Seq<char>| #[trigger] tv.contains(t) implies names(out@).contains(t) by {
            assert(names(counts@).contains(t));
        }
        assert forall|a: int, b: int| 0 <= a < b < out@.len() implies #[trigger] out@[a].1.part >= #[trigger] out@[b].1.part by {
            assert(counts@[a].1 >= counts@[b].1);
        }
    }
    out
}

} // verus!
