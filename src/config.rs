use vstd::prelude::*;

use crate::output::OutputMode;
use crate::sampling::SampleMode;
use crate::stats::Stats;

verus! {

/// The fully resolved settings of one run.
#[derive(Debug)]
pub struct Config {
    pub sample_mode: SampleMode,
    /// Target sample count (random mode); keys processed between pauses (full scan).
    pub n_samples: usize,
    pub batch_size: usize,
    pub batch_sleep_ms: u64,
    pub stats: Vec<Stats>,
    pub output_mode: OutputMode,
    pub url: String,
    /// Glob-style patterns that group keys into bins, in priority order.
    pub patterns: Vec<String>,
}

/// Keeps each element at its first occurrence and drops later repeats.
pub open spec fn dedup<T>(s: Seq<T>) -> Seq<T>
    decreases s.len(),
{
    if s.len() == 0 {
        Seq::empty()
    } else if s.drop_last().contains(s.last()) {
        dedup(s.drop_last())
    } else {
        dedup(s.drop_last()).push(s.last())
    }
}

/// The views of a list of strings.
pub open spec fn strings_view(v: Seq<String>) -> Seq<Seq<char>> {
    v.map_values(|s: String| s@)
}

/// The text of the catch-all pattern.
pub open spec fn catch_all() -> Seq<char> {
    seq!['*']
}

/// The operator's patterns with the catch-all appended and repeats removed.
pub open spec fn normalized(patterns: Seq<Seq<char>>) -> Seq<Seq<char>> {
    dedup(patterns.push(catch_all()))
}

/// An element occurs in the de-duplicated sequence exactly when it occurs in the input.
pub proof fn lemma_dedup_contains<T>(s: Seq<T>, x: T)
    ensures
        dedup(s).contains(x) <==> s.contains(x),
    decreases s.len(),
{
    if s.len() > 0 {
        lemma_dedup_contains(s.drop_last(), x);
        if s.drop_last().contains(x) {
            let i = choose|i: int| 0 <= i < s.drop_last().len() && s.drop_last()[i] == x;
            assert(s[i] == x);
        }
        if s.contains(x) && x != s.last() {
            let i = choose|i: int| 0 <= i < s.len() && s[i] == x;
            assert(s.drop_last()[i] == x);
        }
        if !s.drop_last().contains(s.last()) {
            let d = dedup(s.drop_last());
            assert(d.push(s.last())[d.len() as int] == s.last());
            if d.contains(x) {
                let j = choose|j: int| 0 <= j < d.len() && d[j] == x;
                assert(d.push(s.last())[j] == x);
            }
            if d.push(s.last()).contains(x) && x != s.last() {
                let j = choose|j: int| 0 <= j < d.len() + 1 && d.push(s.last())[j] == x;
                assert(d[j] == x);
            }
        }
        assert(s[s.len() - 1] == s.last());
    }
}

/// No element occurs twice in the de-duplicated sequence.
pub proof fn lemma_dedup_unique<T>(s: Seq<T>)
    ensures
        dedup(s).no_duplicates(),
    decreases s.len(),
{
    if s.len() > 0 {
        lemma_dedup_unique(s.drop_last());
        if !s.drop_last().contains(s.last()) {
            lemma_dedup_contains(s.drop_last(), s.last());
            let d = dedup(s.drop_last());
            assert forall|i: int, j: int|
                0 <= i < d.push(s.last()).len() && 0 <= j < d.push(s.last()).len() && i != j
                    implies d.push(s.last())[i] != d.push(s.last())[j] by {
                if i == d.len() as int {
                    assert(d[j] == d.push(s.last())[j]);
                } else if j == d.len() as int {
                    assert(d[i] == d.push(s.last())[i]);
                }
            }
        }
    }
}

fn contains_stat(v: &Vec<Stats>, x: Stats) -> (r: bool)
    ensures
        r == v@.contains(x),
{
    let mut i: usize = 0;
    while i < v.len()
        invariant
            i <= v.len(),
            forall|j: int| 0 <= j < i ==> v@[j] != x,
        decreases v.len() - i,
    {
        if v[i] == x {
            return true;
        }
        i += 1;
    }
    false
}

fn contains_string(v: &Vec<String>, x: &String) -> (r: bool)
    ensures
        r == strings_view(v@).contains(x@),
{
    let mut i: usize = 0;
    while i < v.len()
        invariant
            i <= v.len(),
            forall|j: int| 0 <= j < i ==> v@[j]@ != x@,
        decreases v.len() - i,
    {
        if v[i] == *x {
            assert(strings_view(v@)[i as int] == x@);
            return true;
        }
        i += 1;
    }
    proof {
        if strings_view(v@).contains(x@) {
            let j = choose|j: int| 0 <= j < strings_view(v@).len() && strings_view(v@)[j] == x@;
            assert(v@[j]@ == x@);
        }
    }
    false
}

/// The statistics in the order given, each kept at its first occurrence.
pub fn dedup_stats(v: &Vec<Stats>) -> (r: Vec<Stats>)
    ensures
        r@ == dedup(v@),
{
    let mut out: Vec<Stats> = Vec::new();
    let mut i: usize = 0;
    while i < v.len()
        invariant
            i <= v.len(),
            out@ == dedup(v@.take(i as int)),
        decreases v.len() - i,
    {
        let x = v[i];
        assert(v@.take(i as int + 1).drop_last() == v@.take(i as int));
        assert(v@.take(i as int + 1).last() == x);
        proof {
            lemma_dedup_contains(v@.take(i as int), x);
        }
        if !contains_stat(&out, x) {
            out.push(x);
        }
        i += 1;
    }
    assert(v@.take(v.len() as int) == v@);
    out
}

/// The patterns in the order given, each kept at its first occurrence.
pub fn dedup_patterns(v: &Vec<String>) -> (r: Vec<String>)
    ensures
        strings_view(r@) == dedup(strings_view(v@)),
{
    let mut out: Vec<String> = Vec::new();
    let mut i: usize = 0;
    while i < v.len()
        invariant
            i <= v.len(),
            strings_view(out@) == dedup(strings_view(v@.take(i as int))),
        decreases v.len() - i,
    {
        let x = &v[i];
        let ghost pre = strings_view(v@.take(i as int));
        assert(strings_view(v@.take(i as int + 1)).drop_last() == pre);
        assert(strings_view(v@.take(i as int + 1)).last() == x@);
        proof {
            lemma_dedup_contains(pre, x@);
        }
        if !contains_string(&out, x) {
            out.push(x.clone());
            assert(strings_view(out@) == dedup(strings_view(v@.take(i as int))).push(x@));
        }
        i += 1;
    }
    assert(v@.take(v.len() as int) == v@);
    out
}

/// The operator's patterns with the catch-all `*` appended, then de-duplicated.
pub fn normalize_patterns(patterns: &Vec<String>) -> (r: Vec<String>)
    ensures
        strings_view(r@) == normalized(strings_view(patterns@)),
{
    let mut all = patterns.clone();
    proof {
        assert(all@ == patterns@);
    }
    let star = "*".to_owned();
    proof {
        reveal_strlit("*");
    }
    assert(star@ == catch_all());
    all.push(star);
    assert(strings_view(all@) == strings_view(patterns@).push(catch_all()));
    dedup_patterns(&all)
}

impl Config {
    /// De-duplicates the requested statistics, appends the catch-all pattern
    /// and de-duplicates the patterns; the other settings stay as they are.
    pub fn normalize(&mut self)
        ensures
            final(self).stats@ == dedup(old(self).stats@),
            strings_view(final(self).patterns@) == normalized(strings_view(old(self).patterns@)),
            strings_view(final(self).patterns@).no_duplicates(),
            strings_view(final(self).patterns@).contains(catch_all()),
            final(self).sample_mode == old(self).sample_mode,
            final(self).n_samples == old(self).n_samples,
            final(self).batch_size == old(self).batch_size,
            final(self).batch_sleep_ms == old(self).batch_sleep_ms,
            final(self).output_mode == old(self).output_mode,
            final(self).url == old(self).url,
    {
        self.stats = dedup_stats(&self.stats);
        let ghost given = strings_view(self.patterns@).push(catch_all());
        self.patterns = normalize_patterns(&self.patterns);
        proof {
            lemma_dedup_unique(given);
            lemma_dedup_contains(given, catch_all());
            assert(given[given.len() - 1] == catch_all());
        }
    }

    /// Whether the statistic was requested.
    pub fn has_stat(&self, stat: &Stats) -> (r: bool)
        ensures
            r == self.stats@.contains(*stat),
    {
        contains_stat(&self.stats, *stat)
    }
}

} // verus!
