use keyspace_stats::config::Config;
use keyspace_stats::data::Data;
use keyspace_stats::output::OutputMode;
use keyspace_stats::sample::{Sample, SampleError, SampleValue};
use keyspace_stats::sampling::sample_all::FullScan;
use keyspace_stats::sampling::sample_random::{this_batch_size, RandomSampler, Step, Termination};
use keyspace_stats::sampling::SampleMode;
use keyspace_stats::seed::{fake_key, FakeKey};
use keyspace_stats::stats::Stats;

fn config(n_samples: usize, batch_size: usize) -> Config {
    Config {
        sample_mode: SampleMode::Random,
        n_samples,
        batch_size,
        batch_sleep_ms: 0,
        stats: vec![Stats::Memory],
        output_mode: OutputMode::Table,
        url: "redis://127.0.0.1".to_string(),
        patterns: vec![],
    }
}

fn sample() -> Sample {
    Sample {
        exists: SampleValue::Sampled(true),
        memory: SampleValue::Sampled(64),
        ttl: SampleValue::Unsampled,
        type_: SampleValue::Unsampled,
    }
}

// Runs one batch of draws through the sampler, sampling every wanted key.
fn run_batch(sampler: &mut RandomSampler, draws: &[&str]) -> Step {
    for key in draws {
        let key = key.to_string();
        if sampler.wants(&key) {
            sampler.record(key, Ok(sample())).unwrap();
        }
    }
    sampler.finish_batch()
}

#[test]
fn batch_size_shrinks_near_target() {
    let mut data = Data::new(&config(10, 4));
    assert_eq!(this_batch_size(&config(10, 4), &data), 4);
    for i in 0..8 {
        data.add_sample(format!("k{}", i), sample());
    }
    assert_eq!(this_batch_size(&config(10, 4), &data), 2);
    assert_eq!(this_batch_size(&config(5, 4), &data), 0);
}

#[test]
fn random_sampling_reaches_target() {
    let mut sampler = RandomSampler::new(&config(3, 2));
    assert_eq!(sampler.next_batch_size(), 2);
    assert_eq!(run_batch(&mut sampler, &["a", "b"]), Step::Continue);
    assert_eq!(sampler.next_batch_size(), 1);
    assert_eq!(run_batch(&mut sampler, &["c"]), Step::Done(Termination::TargetReached));
    assert_eq!(sampler.into_data().count(), 3);
}

#[test]
fn random_sampling_exhausts_after_ten_empty_batches() {
    // The store holds two keys and five are requested.
    let mut sampler = RandomSampler::new(&config(5, 2));
    assert_eq!(run_batch(&mut sampler, &["a", "b"]), Step::Continue);
    let mut empty_batches = 0;
    let outcome = loop {
        let step = run_batch(&mut sampler, &["b", "a"]);
        empty_batches += 1;
        if step != Step::Continue {
            break step;
        }
    };
    assert_eq!(outcome, Step::Done(Termination::Exhausted));
    assert_eq!(empty_batches, 10);
    assert_eq!(sampler.count(), 2);
    assert!(sampler.count() < 5);
}

#[test]
fn a_new_key_restarts_the_empty_streak() {
    let mut sampler = RandomSampler::new(&config(5, 1));
    assert_eq!(run_batch(&mut sampler, &["a"]), Step::Continue);
    for _ in 0..9 {
        assert_eq!(run_batch(&mut sampler, &["a"]), Step::Continue);
    }
    assert_eq!(run_batch(&mut sampler, &["b"]), Step::Continue);
    for _ in 0..9 {
        assert_eq!(run_batch(&mut sampler, &["b"]), Step::Continue);
    }
    assert_eq!(run_batch(&mut sampler, &["a"]), Step::Done(Termination::Exhausted));
}

#[test]
fn vanished_keys_are_skipped_and_failures_are_returned() {
    let mut sampler = RandomSampler::new(&config(5, 1));
    assert_eq!(sampler.record("gone".to_string(), Err(SampleError::KeyVanished)), Ok(()));
    assert_eq!(sampler.count(), 0);
    assert_eq!(
        sampler.record("x".to_string(), Err(SampleError::ProtocolFailure("broken pipe".to_string()))),
        Err("broken pipe".to_string())
    );
    assert_eq!(sampler.finish_batch(), Step::Continue);
}

#[test]
fn zero_target_stops_after_first_batch() {
    let mut sampler = RandomSampler::new(&config(0, 10));
    assert_eq!(sampler.next_batch_size(), 0);
    assert_eq!(sampler.finish_batch(), Step::Done(Termination::TargetReached));
}

#[test]
fn full_scan_pauses_every_n_keys() {
    let mut scan = FullScan::new(&config(2, 10));
    let mut pauses = Vec::new();
    for key in ["a", "b", "c", "d", "e"] {
        let key = key.to_string();
        if scan.wants(&key) {
            pauses.push(scan.record(key, Ok(sample())).unwrap());
        }
    }
    assert_eq!(pauses, vec![false, true, false, true, false]);
    assert_eq!(scan.count(), 5);
}

#[test]
fn full_scan_counts_vanished_keys_and_skips_sampled_ones() {
    let mut scan = FullScan::new(&config(2, 10));
    assert_eq!(scan.record("a".to_string(), Ok(sample())), Ok(false));
    assert!(!scan.wants(&"a".to_string()));
    assert_eq!(scan.record("b".to_string(), Err(SampleError::KeyVanished)), Ok(true));
    assert_eq!(scan.count(), 1);
    assert_eq!(
        scan.record("c".to_string(), Err(SampleError::ProtocolFailure("eof".to_string()))),
        Err("eof".to_string())
    );
    assert_eq!(scan.into_data().count(), 1);
}

#[test]
fn full_scan_with_zero_interval_never_pauses() {
    let mut scan = FullScan::new(&config(0, 10));
    for key in ["a", "b", "c"] {
        assert_eq!(scan.record(key.to_string(), Ok(sample())), Ok(false));
    }
}

#[test]
fn fake_keys_follow_the_draws() {
    assert_eq!(
        fake_key(3, 4, 7, true, 9),
        FakeKey {
            resource: "user".to_string(),
            index: 3,
            attribute: "messages".to_string(),
            padding: 300,
            expire_secs: Some(9),
        }
    );
    let k = fake_key(1, 255, 5, false, 9);
    assert_eq!(k.resource, "company");
    assert_eq!(k.attribute, "memes");
    assert_eq!(k.expire_secs, None);
}
