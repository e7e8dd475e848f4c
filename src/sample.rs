use vstd::prelude::*;

use crate::config::Config;
use crate::stats::Stats;

verus! {

/// The outcome of measuring one statistic of one key.
#[derive(PartialEq, Eq, Debug)]
pub enum SampleValue<T> {
    /// This run did not ask for the statistic.
    Unsampled,
    /// The statistic was asked for but the store could not supply it.
    NotFound,
    /// The measured value.
    Sampled(T),
}

impl<T> SampleValue<T> {
    /// Whether the field holds a measured value.
    pub fn is_sampled(&self) -> (r: bool)
        ensures
            r == self is Sampled,
    {
        match self {
            SampleValue::Sampled(_) => true,
            _ => false,
        }
    }

    /// The measured value; only a sampled field has one.
    pub fn value(&self) -> (r: &T)
        requires
            self is Sampled,
        ensures
            *r == self->Sampled_0,
    {
        match self {
            SampleValue::Sampled(val) => val,
            _ => vstd::pervasive::unreached(),
        }
    }
}

/// The measurements taken for one key.
#[derive(PartialEq, Eq, Debug)]
pub struct Sample {
    pub exists: SampleValue<bool>,
    /// Bytes used by the key and its value.
    pub memory: SampleValue<u64>,
    /// Seconds to expiry; negative when the key has no expiry.
    pub ttl: SampleValue<i64>,
    /// The store's name for the value's type, such as `string` or `set`.
    pub type_: SampleValue<String>,
}

/// One reply of the store to one command, reduced to what decoding reads.
#[derive(PartialEq, Eq, Debug)]
pub enum Reply {
    Int(i64),
    Status(String),
    Other,
}

/// Why a key could not be sampled.
#[derive(PartialEq, Eq, Debug)]
pub enum SampleError {
    /// The key no longer exists: it was removed between discovery and measurement.
    KeyVanished,
    /// The request to the store failed; the text describes how.
    ProtocolFailure(String),
}

/// 1 when the statistic is requested, else 0.
pub open spec fn requested(stats: Seq<Stats>, k: Stats) -> int {
    if stats.contains(k) {
        1
    } else {
        0
    }
}

/// The requested optional statistics in canonical order: memory, ttl, type.
pub open spec fn requested_kinds_spec(stats: Seq<Stats>) -> Seq<Stats> {
    (if stats.contains(Stats::Memory) { seq![Stats::Memory] } else { Seq::empty() })
        + (if stats.contains(Stats::Ttl) { seq![Stats::Ttl] } else { Seq::empty() })
        + (if stats.contains(Stats::Type) { seq![Stats::Type] } else { Seq::empty() })
}

/// The position in the reply of a requested statistic; position 0 holds existence.
pub open spec fn slot(stats: Seq<Stats>, k: Stats) -> int {
    match k {
        Stats::Memory => 1,
        Stats::Ttl => 1 + requested(stats, Stats::Memory),
        Stats::Type => 1 + requested(stats, Stats::Memory) + requested(stats, Stats::Ttl),
    }
}

/// The command that checks whether a key exists.
pub open spec fn exists_command(key: Seq<char>) -> Seq<Seq<char>> {
    seq!["EXISTS"@, key]
}

/// The command that measures one statistic of a key.
pub open spec fn stat_command(k: Stats, key: Seq<char>) -> Seq<Seq<char>> {
    match k {
        Stats::Memory => seq!["MEMORY"@, "USAGE"@, key, "SAMPLES"@, "0"@],
        Stats::Ttl => seq!["TTL"@, key],
        Stats::Type => seq!["TYPE"@, key],
    }
}

/// The whole request for one key: existence first, then each requested statistic.
pub open spec fn stat_request_spec(key: Seq<char>, stats: Seq<Stats>) -> Seq<Seq<Seq<char>>> {
    seq![exists_command(key)] + requested_kinds_spec(stats).map_values(
        |k: Stats| stat_command(k, key),
    )
}

/// The reply at position `i`, if there is one.
pub open spec fn reply_at(data: Seq<Reply>, i: int) -> Option<Reply> {
    if 0 <= i < data.len() {
        Some(data[i])
    } else {
        None
    }
}

pub open spec fn decode_exists(r: Option<Reply>) -> SampleValue<bool> {
    match r {
        Some(Reply::Int(0)) => SampleValue::Sampled(false),
        Some(Reply::Int(1)) => SampleValue::Sampled(true),
        _ => SampleValue::NotFound,
    }
}

pub open spec fn decode_memory(r: Option<Reply>) -> SampleValue<u64> {
    match r {
        Some(Reply::Int(n)) => if n >= 0 {
            SampleValue::Sampled(n as u64)
        } else {
            SampleValue::NotFound
        },
        _ => SampleValue::NotFound,
    }
}

pub open spec fn decode_ttl(r: Option<Reply>) -> SampleValue<i64> {
    match r {
        Some(Reply::Int(n)) => SampleValue::Sampled(n),
        _ => SampleValue::NotFound,
    }
}

pub open spec fn decode_type(r: Option<Reply>) -> SampleValue<String> {
    match r {
        Some(Reply::Status(t)) => SampleValue::Sampled(t),
        _ => SampleValue::NotFound,
    }
}

/// The record decoded from a reply to `stat_request_spec(key, stats)`.
pub open spec fn decode_spec(data: Seq<Reply>, stats: Seq<Stats>) -> Sample {
    Sample {
        exists: decode_exists(reply_at(data, 0)),
        memory: if stats.contains(Stats::Memory) {
            decode_memory(reply_at(data, slot(stats, Stats::Memory)))
        } else {
            SampleValue::Unsampled
        },
        ttl: if stats.contains(Stats::Ttl) {
            decode_ttl(reply_at(data, slot(stats, Stats::Ttl)))
        } else {
            SampleValue::Unsampled
        },
        type_: if stats.contains(Stats::Type) {
            decode_type(reply_at(data, slot(stats, Stats::Type)))
        } else {
            SampleValue::Unsampled
        },
    }
}

/// Request building and reply decoding stay in lock-step: the reply slot that
/// decoding reads for a requested statistic is the slot of that statistic's command.
pub proof fn lemma_request_matches_slots(key: Seq<char>, stats: Seq<Stats>, k: Stats)
    requires
        stats.contains(k),
    ensures
        0 < slot(stats, k) < stat_request_spec(key, stats).len(),
        stat_request_spec(key, stats)[slot(stats, k)] == stat_command(k, key),
        stat_request_spec(key, stats)[0] == exists_command(key),
        stat_request_spec(key, stats).len() == 1 + requested(stats, Stats::Memory) + requested(
            stats,
            Stats::Ttl,
        ) + requested(stats, Stats::Type),
{
    let kinds = requested_kinds_spec(stats);
    assert(kinds.len() == requested(stats, Stats::Memory) + requested(stats, Stats::Ttl)
        + requested(stats, Stats::Type));
    assert(kinds[slot(stats, k) - 1] == k);
}

fn owned(s: &str) -> (r: String)
    ensures
        r@ == s@,
{
    s.to_owned()
}

/// Whether the statistic was requested, with the request list of the config.
fn wants(config: &Config, k: Stats) -> (r: bool)
    ensures
        r == config.stats@.contains(k),
{
    config.has_stat(&k)
}

/// The requested optional statistics in canonical order.
pub fn requested_kinds(config: &Config) -> (r: Vec<Stats>)
    ensures
        r@ == requested_kinds_spec(config.stats@),
{
    let mut r: Vec<Stats> = Vec::new();
    if wants(config, Stats::Memory) {
        r.push(Stats::Memory);
    }
    if wants(config, Stats::Ttl) {
        r.push(Stats::Ttl);
    }
    if wants(config, Stats::Type) {
        r.push(Stats::Type);
    }
    r
}

fn command_for(k: Stats, key: &str) -> (r: Vec<String>)
    ensures
        r@.map_values(|s: String| s@) == stat_command(k, key@),
{
    let mut r: Vec<String> = Vec::new();
    match k {
        Stats::Memory => {
            r.push(owned("MEMORY"));
            r.push(owned("USAGE"));
            r.push(owned(key));
            r.push(owned("SAMPLES"));
            r.push(owned("0"));
        },
        Stats::Ttl => {
            r.push(owned("TTL"));
            r.push(owned(key));
        },
        Stats::Type => {
            r.push(owned("TYPE"));
            r.push(owned(key));
        },
    }
    assert(r@.map_values(|s: String| s@) == stat_command(k, key@));
    r
}

/// The commands, as words, of the atomic request that measures one key:
/// the existence check first, then one command per requested statistic.
pub fn stat_request(key: &str, config: &Config) -> (r: Vec<Vec<String>>)
    ensures
        r@.map_values(|c: Vec<String>| c@.map_values(|s: String| s@)) == stat_request_spec(
            key@,
            config.stats@,
        ),
{
    let kinds = requested_kinds(config);
    let mut r: Vec<Vec<String>> = Vec::new();
    let mut first: Vec<String> = Vec::new();
    first.push(owned("EXISTS"));
    first.push(owned(key));
    assert(first@.map_values(|s: String| s@) == exists_command(key@));
    r.push(first);
    let mut i: usize = 0;
    while i < kinds.len()
        invariant
            i <= kinds.len(),
            kinds@ == requested_kinds_spec(config.stats@),
            r@.len() == i + 1,
            r@.map_values(|c: Vec<String>| c@.map_values(|s: String| s@)) == seq![
                exists_command(key@),
            ] + kinds@.take(i as int).map_values(|k: Stats| stat_command(k, key@)),
        decreases kinds.len() - i,
    {
        let c = command_for(kinds[i], key);
        let ghost before = r@;
        r.push(c);
        proof {
            let f = |c: Vec<String>| c@.map_values(|s: String| s@);
            let g = |k: Stats| stat_command(k, key@);
            assert(r@.map_values(f) =~= before.map_values(f).push(f(c)));
            assert(kinds@.take(i + 1).map_values(g) =~= kinds@.take(i as int).map_values(g).push(
                g(kinds@[i as int]),
            ));
        }
        i += 1;
    }
    assert(kinds@.take(kinds.len() as int) == kinds@);
    r
}

fn get_reply(data: &Vec<Reply>, i: usize) -> (r: Option<&Reply>)
    ensures
        r matches Some(x) ==> reply_at(data@, i as int) == Some(*x),
        r is None ==> reply_at(data@, i as int) is None,
{
    if i < data.len() {
        Some(&data[i])
    } else {
        None
    }
}

impl Sample {
    /// Whether the record holds a measured value for the statistic.
    pub open spec fn has_field(self, stat: Stats) -> bool {
        match stat {
            Stats::Memory => self.memory is Sampled,
            Stats::Ttl => self.ttl is Sampled,
            Stats::Type => self.type_ is Sampled,
        }
    }

    /// Decodes the reply to `stat_request`, read position by position: the
    /// existence check, then each requested statistic in canonical order.
    pub fn new(data: &Vec<Reply>, config: &Config) -> (r: Sample)
        ensures
            r == decode_spec(data@, config.stats@),
    {
        let exists = match get_reply(data, 0) {
            Some(Reply::Int(n)) => if *n == 0 {
                SampleValue::Sampled(false)
            } else if *n == 1 {
                SampleValue::Sampled(true)
            } else {
                SampleValue::NotFound
            },
            _ => SampleValue::NotFound,
        };
        let mut sample = Sample {
            exists,
            memory: SampleValue::Unsampled,
            ttl: SampleValue::Unsampled,
            type_: SampleValue::Unsampled,
        };
        let mut idx: usize = 1;
        if wants(config, Stats::Memory) {
            sample.memory = match get_reply(data, idx) {
                Some(Reply::Int(n)) => if *n >= 0 {
                    SampleValue::Sampled(*n as u64)
                } else {
                    SampleValue::NotFound
                },
                _ => SampleValue::NotFound,
            };
            idx += 1;
        }
        assert(idx == slot(config.stats@, Stats::Ttl));
        if wants(config, Stats::Ttl) {
            sample.ttl = match get_reply(data, idx) {
                Some(Reply::Int(n)) => SampleValue::Sampled(*n),
                _ => SampleValue::NotFound,
            };
            idx += 1;
        }
        assert(idx == slot(config.stats@, Stats::Type));
        if wants(config, Stats::Type) {
            sample.type_ = match get_reply(data, idx) {
                Some(Reply::Status(t)) => SampleValue::Sampled(t.clone()),
                _ => SampleValue::NotFound,
            };
        }
        sample
    }

    pub fn exists_(&self) -> (r: bool)
        requires
            self.exists is Sampled,
        ensures
            r == self.exists->Sampled_0,
    {
        *self.exists.value()
    }

    pub fn memory(&self) -> (r: u64)
        requires
            self.memory is Sampled,
        ensures
            r == self.memory->Sampled_0,
    {
        *self.memory.value()
    }

    pub fn ttl(&self) -> (r: i64)
        requires
            self.ttl is Sampled,
        ensures
            r == self.ttl->Sampled_0,
    {
        *self.ttl.value()
    }

    pub fn type_(&self) -> (r: String)
        requires
            self.type_ is Sampled,
        ensures
            r == self.type_->Sampled_0,
    {
        self.type_.value().clone()
    }
}

/// Turns the store's answer to `stat_request(key, config)` into the key's
/// record: a failed request is a protocol failure, and a key whose existence
/// check does not answer 1 has vanished.
pub fn sample_key(reply: Result<Vec<Reply>, String>, config: &Config) -> (r: Result<
    Sample,
    SampleError,
>)
    ensures
        match reply {
            Err(e) => r == Err::<Sample, SampleError>(SampleError::ProtocolFailure(e)),
            Ok(data) => if decode_spec(data@, config.stats@).exists == SampleValue::Sampled(true) {
                r == Ok::<Sample, SampleError>(decode_spec(data@, config.stats@))
            } else {
                r == Err::<Sample, SampleError>(SampleError::KeyVanished)
            },
        },
{
    match reply {
        Err(e) => Err(SampleError::ProtocolFailure(e)),
        Ok(data) => {
            let sample = Sample::new(&data, config);
            match sample.exists {
                SampleValue::Sampled(true) => Ok(sample),
                _ => Err(SampleError::KeyVanished),
            }
        },
    }
}

} // verus!
