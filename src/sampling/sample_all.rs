use vstd::prelude::*;

use crate::config::{normalized, strings_view, Config};
use crate::data::Data;
use crate::sample::{Sample, SampleError};

verus! {

/// The decisions of a full scan: every key the cursor yields that `wants`
/// accepts goes through the stat protocol and its outcome to `record`, which
/// says when to pause. The pause comes after every `n_samples` such keys.
pub struct FullScan {
    data: Data,
    interval: usize,
    since_pause: usize,
}

impl FullScan {
    /// The sample store being filled.
    pub closed spec fn data_view(&self) -> Data {
        self.data
    }

    /// Keys processed between pauses; zero never pauses.
    pub closed spec fn interval_view(&self) -> int {
        self.interval as int
    }

    /// Keys processed since the last pause.
    pub closed spec fn since_pause_view(&self) -> int {
        self.since_pause as int
    }

    pub open spec fn wf(&self) -> bool {
        &&& self.data_view().wf()
        &&& 0 <= self.since_pause_view()
        &&& (self.interval_view() == 0 ==> self.since_pause_view() == 0)
        &&& (self.interval_view() > 0 ==> self.since_pause_view() < self.interval_view())
    }

    /// A scan with an empty store that pauses after every `config.n_samples` keys.
    pub fn new(config: &Config) -> (r: FullScan)
        ensures
            r.wf(),
            r.data_view().samples_view().len() == 0,
            r.data_view().patterns_view() == normalized(strings_view(config.patterns@)),
            r.interval_view() == config.n_samples,
            r.since_pause_view() == 0,
    {
        FullScan { data: Data::new(config), interval: config.n_samples, since_pause: 0 }
    }

    /// Whether a key still needs sampling (it is not in the store yet).
    pub fn wants(&self, key: &String) -> (r: bool)
        ensures
            r == !self.data_view().samples_view().contains_key(key@),
    {
        !self.data.has_sample(key)
    }

    /// Takes the stat protocol's outcome for a key and counts the key towards
    /// the next pause. A sampled key goes into the store, a vanished key is
    /// skipped, and a protocol failure is handed back: the run must stop.
    /// `Ok(true)` asks for a pause now.
    pub fn record(&mut self, key: String, outcome: Result<Sample, SampleError>) -> (r: Result<bool, String>)
        requires
            old(self).wf(),
        ensures
            final(self).wf(),
            final(self).interval_view() == old(self).interval_view(),
            match outcome {
                Ok(sample) => Data::added(old(self).data_view(), final(self).data_view(), key@, sample),
                Err(_) => final(self).data_view() == old(self).data_view(),
            },
            match outcome {
                Err(SampleError::ProtocolFailure(e)) => {
                    &&& r == Err::<bool, String>(e)
                    &&& final(self).since_pause_view() == old(self).since_pause_view()
                },
                _ => {
                    let n = old(self).since_pause_view() + 1;
                    if old(self).interval_view() > 0 && n == old(self).interval_view() {
                        r == Ok::<bool, String>(true) && final(self).since_pause_view() == 0
                    } else {
                        r == Ok::<bool, String>(false) && final(self).since_pause_view() == if old(
                            self,
                        ).interval_view() == 0 {
                            0
                        } else {
                            n
                        }
                    }
                },
            },
    {
        match outcome {
            Ok(sample) => {
                self.data.add_sample(key, sample);
            },
            Err(SampleError::KeyVanished) => {},
            Err(SampleError::ProtocolFailure(e)) => {
                return Err(e);
            },
        }
        if self.interval == 0 {
            return Ok(false);
        }
        self.since_pause = self.since_pause + 1;
        if self.since_pause == self.interval {
            self.since_pause = 0;
            Ok(true)
        } else {
            Ok(false)
        }
    }

    /// The number of keys sampled so far.
    pub fn count(&self) -> (r: usize)
        ensures
            r == self.data_view().samples_view().len(),
    {
        self.data.count()
    }

    /// Ends the scan and hands the store over for aggregation.
    pub fn into_data(self) -> (r: Data)
        ensures
            r == self.data_view(),
    {
        self.data
    }
}

} // verus!
