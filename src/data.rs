use vstd::hash_map::StringHashMap;
use vstd::prelude::*;

use crate::config::{catch_all, lemma_dedup_contains, lemma_dedup_unique, normalize_patterns, normalized, strings_view, Config};
use crate::sample::Sample;
use crate::stats::Stats;

pub mod keys;
pub mod math;
pub mod memory;
pub mod other;
pub mod ttl;
pub mod types;

verus! {

/// Whether the glob pattern compiles and matches the key.
pub uninterp spec fn glob_matches(pattern: Seq<char>, key: Seq<char>) -> bool;

/// Relies on `glob::Pattern::new` to compile the pattern and on
/// `glob::Pattern::matches` (default options) to test the key; a pattern that
/// does not compile matches nothing. `*` compiles to a single any-sequence
/// token, which matches every string.
#[verifier::external_body]
fn glob_match(pattern: &str, key: &str) -> (r: bool)
    ensures
        r == glob_matches(pattern@, key@),
        pattern@ == catch_all() ==> r,
{
    match glob::Pattern::new(pattern) {
        Ok(p) => p.matches(key),
        Err(_) => false,
    }
}

/// `i` is the position of the first pattern that matches the key.
pub open spec fn is_first_match(patterns: Seq<Seq<char>>, key: Seq<char>, i: int) -> bool {
    &&& 0 <= i < patterns.len()
    &&& glob_matches(patterns[i], key)
    &&& forall|j: int| 0 <= j < i ==> !glob_matches(#[trigger] patterns[j], key)
}

/// The sampled keys: one record per key, and each key in the bin of its pattern.
pub struct Data {
    samples: StringHashMap<Sample>,
    patterns: Vec<String>,
    bins: Vec<Vec<String>>,
}

impl Data {
    /// The record of each sampled key.
    pub closed spec fn samples_view(&self) -> Map<Seq<char>, Sample> {
        self.samples@
    }

    /// The bin patterns, in priority order.
    pub closed spec fn patterns_view(&self) -> Seq<Seq<char>> {
        strings_view(self.patterns@)
    }

    /// The keys of each bin, in the order they were added; bin `i` belongs to pattern `i`.
    pub closed spec fn bins_view(&self) -> Seq<Seq<Seq<char>>> {
        self.bins@.map_values(|b: Vec<String>| strings_view(b@))
    }

    /// The patterns are distinct and include the catch-all; every sampled key is
    /// in exactly one bin, the one of the first pattern that matches it; every
    /// binned key is sampled, once.
    pub closed spec fn wf(&self) -> bool {
        &&& self.bins@.len() == self.patterns@.len()
        &&& self.patterns_view().contains(catch_all())
        &&& self.patterns_view().no_duplicates()
        &&& forall|i: int, j: int|
            0 <= i < self.bins_view().len() && 0 <= j < self.bins_view()[i].len() ==> {
                &&& self.samples_view().contains_key(#[trigger] self.bins_view()[i][j])
                &&& is_first_match(self.patterns_view(), self.bins_view()[i][j], i)
            }
        &&& forall|i: int| 0 <= i < self.bins_view().len() ==> (#[trigger] self.bins_view()[i]).no_duplicates()
        &&& forall|k: Seq<char>| #[trigger] self.samples_view().contains_key(k) ==> exists|i: int, j: int|
            0 <= i < self.bins_view().len() && 0 <= j < self.bins_view()[i].len() && #[trigger] self.bins_view()[i][j] == k
    }

    /// What `add_sample(key, sample)` does: a key that is already sampled
    /// changes nothing; a new key gets its record and is appended to the bin of
    /// the first pattern that matches it. The patterns never change.
    pub open spec fn added(pre: Data, post: Data, key: Seq<char>, sample: Sample) -> bool {
        &&& post.patterns_view() == pre.patterns_view()
        &&& pre.samples_view().contains_key(key) ==> {
            &&& post.samples_view() == pre.samples_view()
            &&& post.bins_view() == pre.bins_view()
        }
        &&& !pre.samples_view().contains_key(key) ==> exists|b: int| {
            &&& is_first_match(pre.patterns_view(), key, b)
            &&& post.samples_view() == pre.samples_view().insert(key, sample)
            &&& post.bins_view() == pre.bins_view().update(b, pre.bins_view()[b].push(key))
        }
    }

    /// An empty store whose bins are the config's patterns with the catch-all
    /// appended and repeats removed.
    pub fn new(config: &Config) -> (r: Data)
        ensures
            r.wf(),
            r.samples_view() == Map::<Seq<char>, Sample>::empty(),
            r.patterns_view() == normalized(strings_view(config.patterns@)),
            forall|i: int| 0 <= i < r.bins_view().len() ==> (#[trigger] r.bins_view()[i]).len() == 0,
    {
        let patterns = normalize_patterns(&config.patterns);
        proof {
            lemma_dedup_contains(strings_view(config.patterns@).push(catch_all()), catch_all());
            lemma_dedup_unique(strings_view(config.patterns@).push(catch_all()));
            assert(strings_view(config.patterns@).push(catch_all())[strings_view(config.patterns@).len() as int] == catch_all());
        }
        let mut bins: Vec<Vec<String>> = Vec::new();
        let mut i: usize = 0;
        while i < patterns.len()
            invariant
                i <= patterns.len(),
                bins@.len() == i,
                forall|j: int| 0 <= j < i ==> (#[trigger] bins@[j])@.len() == 0,
            decreases patterns.len() - i,
        {
            bins.push(Vec::new());
            i += 1;
        }
        let r = Data { samples: StringHashMap::new(), patterns, bins };
        assert forall|i: int| 0 <= i < r.bins_view().len() implies (#[trigger] r.bins_view()[i]).len() == 0 by {
            assert(r.bins@[i]@.len() == 0);
        }
        r
    }

    /// The number of sampled keys.
    pub fn count(&self) -> (r: usize)
        ensures
            r == self.samples_view().len(),
    {
        self.samples.len()
    }

    /// Whether the key has been sampled.
    pub fn has_sample(&self, key: &String) -> (r: bool)
        ensures
            r == self.samples_view().contains_key(key@),
    {
        self.samples.contains_key(key.as_str())
    }

    /// The record of a sampled key.
    pub fn get_sample(&self, key: &String) -> (r: Option<&Sample>)
        ensures
            match r {
                Some(s) => self.samples_view().contains_key(key@) && *s == self.samples_view()[key@],
                None => !self.samples_view().contains_key(key@),
            },
    {
        self.samples.get(key.as_str())
    }

    /// The bin patterns, in priority order.
    pub fn patterns(&self) -> (r: &Vec<String>)
        ensures
            strings_view(r@) == self.patterns_view(),
    {
        &self.patterns
    }

    /// The keys of each bin; bin `i` belongs to pattern `i`.
    pub fn bins(&self) -> (r: &Vec<Vec<String>>)
        ensures
            r@.map_values(|b: Vec<String>| strings_view(b@)) == self.bins_view(),
    {
        &self.bins
    }

    /// Every key is sampled and its record holds a value for the statistic.
    pub open spec fn sampled_all(&self, keys: Seq<Seq<char>>, stat: Stats) -> bool {
        forall|i: int|
            0 <= i < keys.len() ==> {
                &&& self.samples_view().contains_key(#[trigger] keys[i])
                &&& self.samples_view()[keys[i]].has_field(stat)
            }
    }

    /// Whether every key is sampled with a value for the statistic, as the
    /// aggregates over those keys require.
    pub fn all_sampled(&self, keys: &Vec<String>, stat: Stats) -> (r: bool)
        ensures
            r == self.sampled_all(strings_view(keys@), stat),
    {
        let mut i: usize = 0;
        while i < keys.len()
            invariant
                i <= keys.len(),
                self.sampled_all(strings_view(keys@.take(i as int)), stat),
            decreases keys.len() - i,
        {
            match self.get_sample(&keys[i]) {
                None => {
                    assert(strings_view(keys@)[i as int] == keys@[i as int]@);
                    return false;
                },
                Some(s) => {
                    let ok = match stat {
                        Stats::Memory => s.memory.is_sampled(),
                        Stats::Ttl => s.ttl.is_sampled(),
                        Stats::Type => s.type_.is_sampled(),
                    };
                    if !ok {
                        assert(strings_view(keys@)[i as int] == keys@[i as int]@);
                        return false;
                    }
                },
            }
            proof {
                let pre = strings_view(keys@.take(i as int));
                let post = strings_view(keys@.take(i + 1));
                assert forall|j: int| 0 <= j < post.len() implies {
                    &&& self.samples_view().contains_key(#[trigger] post[j])
                    &&& self.samples_view()[post[j]].has_field(stat)
                } by {
                    if j < i {
                        assert(post[j] == pre[j]);
                    }
                }
            }
            i += 1;
        }
        assert(keys@.take(keys.len() as int) == keys@);
        true
    }

    /// The position of the first pattern that matches the key.
    fn bin_of(&self, key: &String) -> (r: usize)
        requires
            self.wf(),
        ensures
            is_first_match(self.patterns_view(), key@, r as int),
    {
        let mut i: usize = 0;
        while i < self.patterns.len()
            invariant
                self.wf(),
                i <= self.patterns@.len(),
                forall|j: int| 0 <= j < i ==> !glob_matches(#[trigger] self.patterns_view()[j], key@)
                    && self.patterns_view()[j] != catch_all(),
            decreases self.patterns@.len() - i,
        {
            if glob_match(self.patterns[i].as_str(), key.as_str()) {
                return i;
            }
            assert(self.patterns_view()[i as int] == self.patterns@[i as int]@);
            i += 1;
        }
        proof {
            let c = choose|c: int| 0 <= c < self.patterns_view().len() && self.patterns_view()[c] == catch_all();
            assert(self.patterns_view()[c] != catch_all());
        }
        vstd::pervasive::unreached()
    }

    /// Records a newly sampled key and appends it to the bin of the first pattern
    /// that matches it. A key that is already sampled is left as it is: its
    /// record and its bin do not change.
    pub fn add_sample(&mut self, key: String, sample: Sample)
        requires
            old(self).wf(),
        ensures
            final(self).wf(),
            Data::added(*old(self), *final(self), key@, sample),
    {
        if self.has_sample(&key) {
            return;
        }
        let b = self.bin_of(&key);
        let ghost old_bins = self.bins_view();
        let ghost old_samples = self.samples_view();
        let ghost old_raw = self.bins@;
        let k2 = key.clone();
        self.bins[b].push(k2);
        proof {
            assert(self.bins@.len() == old_raw.len());
            assert(self.bins@[b as int]@ == old_raw[b as int]@.push(k2));
            assert(strings_view(self.bins@[b as int]@) =~= strings_view(old_raw[b as int]@).push(key@));
            assert forall|i: int| 0 <= i < old_raw.len() && i != b implies self.bins@[i] == old_raw[i] by {}
        }
        self.samples.insert(key, sample);
        proof {
            let nb = old_bins.update(b as int, old_bins[b as int].push(key@));
            assert(self.bins_view() =~= nb);
            assert forall|i: int, j: int|
                0 <= i < self.bins_view().len() && 0 <= j < self.bins_view()[i].len() implies {
                    &&& self.samples_view().contains_key(#[trigger] self.bins_view()[i][j])
                    &&& is_first_match(self.patterns_view(), self.bins_view()[i][j], i)
                } by {
                if i != b as int || j < old_bins[i].len() {
                    assert(self.bins_view()[i][j] == old_bins[i][j]);
                }
            }
            assert forall|i: int| 0 <= i < self.bins_view().len() implies (#[trigger] self.bins_view()[i]).no_duplicates() by {
                if i == b as int {
                    assert forall|x: int, y: int| 0 <= x < y < self.bins_view()[i].len() implies self.bins_view()[i][x] != self.bins_view()[i][y] by {
                        if y == old_bins[i].len() {
                            assert(old_samples.contains_key(old_bins[i][x]));
                        }
                    }
                }
            }
            assert forall|k: Seq<char>| #[trigger] self.samples_view().contains_key(k) implies exists|i: int, j: int|
                0 <= i < self.bins_view().len() && 0 <= j < self.bins_view()[i].len() && #[trigger] self.bins_view()[i][j] == k by {
                if k == key@ {
                    assert(self.bins_view()[b as int][old_bins[b as int].len() as int] == k);
                } else {
                    assert(old_samples.contains_key(k));
                    let (i, j) = choose|i: int, j: int|
                        0 <= i < old_bins.len() && 0 <= j < old_bins[i].len() && #[trigger] old_bins[i][j] == k;
                    assert(self.bins_view()[i][j] == k);
                }
            }
        }
    }
}

/// Every sampled key sits in exactly one bin: the bin of the first pattern
/// that matches it. A key that no pattern other than the catch-all matches
/// sits in the catch-all bin.
pub proof fn lemma_key_in_one_bin(d: Data, key: Seq<char>)
    requires
        d.wf(),
        d.samples_view().contains_key(key),
    ensures
        exists|b: int| {
            &&& is_first_match(d.patterns_view(), key, b)
            &&& (#[trigger] d.bins_view()[b]).contains(key)
            &&& forall|c: int| 0 <= c < d.bins_view().len() && (#[trigger] d.bins_view()[c]).contains(key) ==> c == b
            &&& (forall|j: int| 0 <= j < d.patterns_view().len() && d.patterns_view()[j] != catch_all()
                ==> !glob_matches(#[trigger] d.patterns_view()[j], key)) ==> d.patterns_view()[b] == catch_all()
        },
{
    let (b, j) = choose|i: int, j: int|
        0 <= i < d.bins_view().len() && 0 <= j < d.bins_view()[i].len() && #[trigger] d.bins_view()[i][j] == key;
    assert(d.bins_view()[b].contains(key));
    assert forall|c: int| 0 <= c < d.bins_view().len() && (#[trigger] d.bins_view()[c]).contains(key) implies c == b by {
        let j2 = choose|j2: int| 0 <= j2 < d.bins_view()[c].len() && d.bins_view()[c][j2] == key;
        assert(is_first_match(d.patterns_view(), d.bins_view()[c][j2], c));
        assert(is_first_match(d.patterns_view(), d.bins_view()[b][j], b));
        if c < b {
            assert(!glob_matches(d.patterns_view()[c], key));
        } else if b < c {
            assert(!glob_matches(d.patterns_view()[b], key));
        }
    }
    assert(is_first_match(d.patterns_view(), d.bins_view()[b][j], b));
}

/// Adding the same key a second time leaves the records, the sample count and
/// every bin as the first addition left them.
pub proof fn lemma_add_twice(d0: Data, d1: Data, d2: Data, key: Seq<char>, s1: Sample, s2: Sample)
    requires
        Data::added(d0, d1, key, s1),
        Data::added(d1, d2, key, s2),
    ensures
        d2.samples_view() == d1.samples_view(),
        d2.samples_view().len() == d1.samples_view().len(),
        d2.bins_view() == d1.bins_view(),
{
    if !d0.samples_view().contains_key(key) {
        assert(d1.samples_view().contains_key(key));
    }
}

} // verus!
