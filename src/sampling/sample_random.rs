use vstd::prelude::*;

use crate::config::{normalized, strings_view, Config};
use crate::data::Data;
use crate::sample::{Sample, SampleError};

verus! {

/// Consecutive batches without a new key after which random sampling gives up.
pub const MAX_EMPTY_BATCHES: usize = 10;

/// Why random sampling stopped.
#[derive(PartialEq, Eq, Structural, Clone, Copy, Debug)]
pub enum Termination {
    /// The target number of keys was sampled.
    TargetReached,
    /// Too many batches in a row found no new key.
    Exhausted,
}

/// What to do after a batch.
#[derive(PartialEq, Eq, Structural, Clone, Copy, Debug)]
pub enum Step {
    /// Pause for the configured time, then draw the next batch.
    Continue,
    /// Stop sampling.
    Done(Termination),
}

/// The outcome of a batch: `streak` is the number of consecutive batches,
/// this one included, that found no new key; `count` the keys sampled so far.
pub open spec fn step_spec(streak: int, count: int, target: int) -> Step {
    if streak == MAX_EMPTY_BATCHES {
        Step::Done(Termination::Exhausted)
    } else if count < target {
        Step::Continue
    } else {
        Step::Done(Termination::TargetReached)
    }
}

/// The size of the next batch: the configured size, or fewer when fewer keys
/// remain to reach the target.
pub open spec fn batch_size_spec(batch_size: int, target: int, count: int) -> int {
    if count >= target {
        0
    } else if batch_size > target - count {
        target - count
    } else {
        batch_size
    }
}

fn batch_size_left(batch_size: usize, target: usize, count: usize) -> (r: usize)
    ensures
        r == batch_size_spec(batch_size as int, target as int, count as int),
{
    if count >= target {
        0
    } else if batch_size > target - count {
        target - count
    } else {
        batch_size
    }
}

/// The size of the next batch of random draws for the store's current sample count.
pub fn this_batch_size(config: &Config, data: &Data) -> (r: usize)
    ensures
        r == batch_size_spec(
            config.batch_size as int,
            config.n_samples as int,
            data.samples_view().len() as int,
        ),
{
    batch_size_left(config.batch_size, config.n_samples, data.count())
}

/// The decisions of random sampling. Each batch: draw `next_batch_size()`
/// random keys, pass each key that `wants` to the stat protocol and hand the
/// outcome to `record`, then call `finish_batch` to learn whether to go on.
pub struct RandomSampler {
    data: Data,
    target: usize,
    batch_size: usize,
    streak: usize,
    found_new: bool,
}

impl RandomSampler {
    /// The sample store being filled.
    pub closed spec fn data_view(&self) -> Data {
        self.data
    }

    /// The target sample count.
    pub closed spec fn target_view(&self) -> int {
        self.target as int
    }

    /// The configured batch size.
    pub closed spec fn batch_size_view(&self) -> int {
        self.batch_size as int
    }

    /// Consecutive finished batches that found no new key.
    pub closed spec fn streak_view(&self) -> int {
        self.streak as int
    }

    /// Whether the current batch has found a new key.
    pub closed spec fn found_new_view(&self) -> bool {
        self.found_new
    }

    /// The number of keys sampled so far.
    pub open spec fn count_view(&self) -> int {
        self.data_view().samples_view().len() as int
    }

    /// The sampler is between or inside batches of a run that has not stopped.
    pub open spec fn wf(&self) -> bool {
        &&& self.data_view().wf()
        &&& 0 <= self.streak_view() < MAX_EMPTY_BATCHES
        &&& (self.streak_view() > 0 && !self.found_new_view()) ==> self.count_view() < self.target_view()
    }

    /// A sampler with an empty store, before its first batch.
    pub fn new(config: &Config) -> (r: RandomSampler)
        ensures
            r.wf(),
            r.count_view() == 0,
            r.data_view().patterns_view() == normalized(strings_view(config.patterns@)),
            r.streak_view() == 0,
            !r.found_new_view(),
            r.target_view() == config.n_samples,
            r.batch_size_view() == config.batch_size,
    {
        let data = Data::new(config);
        RandomSampler {
            data,
            target: config.n_samples,
            batch_size: config.batch_size,
            streak: 0,
            found_new: false,
        }
    }

    /// How many random keys to draw for the next batch.
    pub fn next_batch_size(&self) -> (r: usize)
        ensures
            r == batch_size_spec(self.batch_size_view(), self.target_view(), self.count_view()),
    {
        batch_size_left(self.batch_size, self.target, self.data.count())
    }

    /// Whether a drawn key still needs sampling (it is not in the store yet).
    pub fn wants(&self, key: &String) -> (r: bool)
        ensures
            r == !self.data_view().samples_view().contains_key(key@),
    {
        !self.data.has_sample(key)
    }

    /// Takes the stat protocol's outcome for a drawn key. A sampled key that is
    /// new goes into the store and marks the batch as productive; a vanished key
    /// is skipped; a protocol failure is handed back, and the run must stop.
    pub fn record(&mut self, key: String, outcome: Result<Sample, SampleError>) -> (r: Result<(), String>)
        requires
            old(self).wf(),
        ensures
            final(self).wf(),
            final(self).target_view() == old(self).target_view(),
            final(self).batch_size_view() == old(self).batch_size_view(),
            final(self).streak_view() == old(self).streak_view(),
            match outcome {
                Ok(sample) => {
                    &&& r is Ok
                    &&& Data::added(old(self).data_view(), final(self).data_view(), key@, sample)
                    &&& final(self).found_new_view() == (old(self).found_new_view()
                        || !old(self).data_view().samples_view().contains_key(key@))
                },
                Err(SampleError::KeyVanished) => {
                    &&& r is Ok
                    &&& *final(self) == *old(self)
                },
                Err(SampleError::ProtocolFailure(e)) => {
                    &&& r == Err::<(), String>(e)
                    &&& *final(self) == *old(self)
                },
            },
    {
        match outcome {
            Ok(sample) => {
                let is_new = !self.data.has_sample(&key);
                self.data.add_sample(key, sample);
                if is_new {
                    self.found_new = true;
                }
                Ok(())
            },
            Err(SampleError::KeyVanished) => Ok(()),
            Err(SampleError::ProtocolFailure(e)) => Err(e),
        }
    }

    /// Ends a batch: the streak of batches without a new key grows by one, or
    /// restarts at zero when this batch found one, and the outcome says whether
    /// to go on. Exhaustion only ever happens below the target.
    pub fn finish_batch(&mut self) -> (r: Step)
        requires
            old(self).wf(),
        ensures
            final(self).data_view() == old(self).data_view(),
            final(self).target_view() == old(self).target_view(),
            final(self).batch_size_view() == old(self).batch_size_view(),
            !final(self).found_new_view(),
            final(self).streak_view() == if old(self).found_new_view() {
                0
            } else {
                old(self).streak_view() + 1
            },
            r == step_spec(final(self).streak_view(), final(self).count_view(), final(self).target_view()),
            r == Step::Continue ==> final(self).wf(),
            r == Step::Done(Termination::Exhausted) ==> final(self).count_view() < final(self).target_view(),
    {
        if self.found_new {
            self.streak = 0;
        } else {
            self.streak = self.streak + 1;
        }
        self.found_new = false;
        if self.streak == MAX_EMPTY_BATCHES {
            Step::Done(Termination::Exhausted)
        } else if self.data.count() < self.target {
            Step::Continue
        } else {
            Step::Done(Termination::TargetReached)
        }
    }

    /// The number of keys sampled so far.
    pub fn count(&self) -> (r: usize)
        ensures
            r == self.count_view(),
    {
        self.data.count()
    }

    /// Ends the run and hands the store over for aggregation.
    pub fn into_data(self) -> (r: Data)
        ensures
            r == self.data_view(),
    {
        self.data
    }
}

/// When the store holds fewer distinct keys than the target, the sample count
/// stays below the target, so sampling never stops for reaching it: from a
/// batch that found a key (or the start), each of the next nine batches
/// without a new key continues, and the tenth stops as exhausted with fewer
/// keys than requested.
pub proof fn lemma_small_store_exhausts(store: Set<Seq<char>>, sampled: Set<Seq<char>>, target: int)
    requires
        store.finite(),
        sampled.subset_of(store),
        store.len() < target,
    ensures
        sampled.len() < target,
        forall|j: int| 1 <= j < MAX_EMPTY_BATCHES ==> #[trigger] step_spec(j, sampled.len() as int, target) == Step::Continue,
        step_spec(MAX_EMPTY_BATCHES as int, sampled.len() as int, target) == Step::Done(Termination::Exhausted),
{
    vstd::set_lib::lemma_len_subset(sampled, store);
}

} // verus!
