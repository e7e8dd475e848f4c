use keyspace_stats::config::Config;
use keyspace_stats::output::OutputMode;
use keyspace_stats::sample::{
    requested_kinds, sample_key, stat_request, Reply, Sample, SampleError, SampleValue,
};
use keyspace_stats::sampling::SampleMode;
use keyspace_stats::stats::Stats;

fn config_with(stats: Vec<Stats>) -> Config {
    Config {
        sample_mode: SampleMode::Random,
        n_samples: 1,
        batch_size: 1,
        batch_sleep_ms: 0,
        stats,
        output_mode: OutputMode::Table,
        url: "redis://127.0.0.1".to_string(),
        patterns: vec![],
    }
}

fn words(v: &[&str]) -> Vec<String> {
    v.iter().map(|s| s.to_string()).collect()
}

#[test]
fn request_with_every_stat() {
    let config = config_with(Stats::all());
    assert_eq!(
        stat_request("k1", &config),
        vec![
            words(&["EXISTS", "k1"]),
            words(&["MEMORY", "USAGE", "k1", "SAMPLES", "0"]),
            words(&["TTL", "k1"]),
            words(&["TYPE", "k1"]),
        ]
    );
}

#[test]
fn request_follows_canonical_order_not_config_order() {
    let config = config_with(vec![Stats::Type, Stats::Ttl]);
    assert_eq!(requested_kinds(&config), vec![Stats::Ttl, Stats::Type]);
    assert_eq!(
        stat_request("k2", &config),
        vec![words(&["EXISTS", "k2"]), words(&["TTL", "k2"]), words(&["TYPE", "k2"])]
    );
}

#[test]
fn request_with_no_stats_checks_existence_only() {
    let config = config_with(vec![]);
    assert_eq!(stat_request("k3", &config), vec![words(&["EXISTS", "k3"])]);
}

#[test]
fn decode_reads_slots_of_requested_stats() {
    let config = config_with(vec![Stats::Ttl, Stats::Type]);
    let reply = vec![Reply::Int(1), Reply::Int(30), Reply::Status("hash".to_string())];
    let sample = Sample::new(&reply, &config);
    assert_eq!(sample.exists, SampleValue::Sampled(true));
    assert_eq!(sample.memory, SampleValue::Unsampled);
    assert_eq!(sample.ttl, SampleValue::Sampled(30));
    assert_eq!(sample.type_, SampleValue::Sampled("hash".to_string()));
}

#[test]
fn decode_marks_missing_or_malformed_replies_unavailable() {
    let config = config_with(Stats::all());
    let reply = vec![Reply::Int(1), Reply::Other, Reply::Status("x".to_string())];
    let sample = Sample::new(&reply, &config);
    assert_eq!(sample.memory, SampleValue::NotFound);
    assert_eq!(sample.ttl, SampleValue::NotFound);
    assert_eq!(sample.type_, SampleValue::NotFound);
    let sample = Sample::new(&vec![Reply::Int(1), Reply::Int(-5)], &config);
    assert_eq!(sample.memory, SampleValue::NotFound);
}

#[test]
fn sample_key_works_1() {
    let config = config_with(Stats::all());
    let reply = vec![
        Reply::Int(1),
        Reply::Int(72),
        Reply::Int(10),
        Reply::Status("string".to_string()),
    ];
    let sample = sample_key(Ok(reply), &config).unwrap();

    assert_eq!(sample.exists_(), true);
    assert!(sample.memory() > 16);
    assert_eq!(sample.ttl(), 10);
    assert_eq!(sample.type_(), "string".to_string());
}

#[test]
fn sample_key_works_2() {
    let config = config_with(Stats::all());
    let reply = vec![
        Reply::Int(1),
        Reply::Int(216),
        Reply::Int(-1),
        Reply::Status("set".to_string()),
    ];
    let sample = sample_key(Ok(reply), &config).unwrap();

    assert_eq!(sample.exists_(), true);
    assert!(sample.memory() > 128);
    assert_eq!(sample.ttl(), -1);
    assert_eq!(sample.type_(), "set".to_string());
}

#[test]
fn sample_key_reports_vanished_key() {
    let config = config_with(Stats::all());
    assert_eq!(
        sample_key(Ok(vec![Reply::Int(0), Reply::Other, Reply::Int(-2), Reply::Status("none".to_string())]), &config),
        Err(SampleError::KeyVanished)
    );
    assert_eq!(sample_key(Ok(vec![]), &config), Err(SampleError::KeyVanished));
}

#[test]
fn sample_key_reports_protocol_failure() {
    let config = config_with(Stats::all());
    assert_eq!(
        sample_key(Err("connection reset".to_string()), &config),
        Err(SampleError::ProtocolFailure("connection reset".to_string()))
    );
}

#[test]
fn sample_value_gives_measured_value() {
    let v: SampleValue<i64> = SampleValue::Sampled(7);
    assert!(v.is_sampled());
    assert_eq!(*v.value(), 7);
    let u: SampleValue<i64> = SampleValue::NotFound;
    assert!(!u.is_sampled());
}
