use keyspace_stats::config::Config;
use keyspace_stats::data::math::{extrapolate, pct_keyspace_sampled, percentile_of_sorted, sort_ascending, Fraction};
use keyspace_stats::data::other::example_keys;
use keyspace_stats::data::types::{type_counts, type_pcts};
use keyspace_stats::data::{keys, memory, ttl, Data};
use keyspace_stats::metadata::Metadata;
use keyspace_stats::output::OutputMode;
use keyspace_stats::sample::{Sample, SampleValue};
use keyspace_stats::sampling::SampleMode;
use keyspace_stats::stats::Stats;

fn config_with(patterns: Vec<&str>) -> Config {
    Config {
        sample_mode: SampleMode::Random,
        n_samples: 100,
        batch_size: 10,
        batch_sleep_ms: 0,
        stats: Stats::all(),
        output_mode: OutputMode::Table,
        url: "redis://127.0.0.1".to_string(),
        patterns: patterns.into_iter().map(|p| p.to_string()).collect(),
    }
}

fn sample(memory: u64, ttl: i64, type_: &str) -> Sample {
    Sample {
        exists: SampleValue::Sampled(true),
        memory: SampleValue::Sampled(memory),
        ttl: SampleValue::Sampled(ttl),
        type_: SampleValue::Sampled(type_.to_string()),
    }
}

fn keys_of(v: &[&str]) -> Vec<String> {
    v.iter().map(|s| s.to_string()).collect()
}

#[test]
fn new_store_has_one_empty_bin_per_pattern() {
    let data = Data::new(&config_with(vec!["user:*", "company:*"]));
    assert_eq!(data.count(), 0);
    assert_eq!(data.patterns(), &keys_of(&["user:*", "company:*", "*"]));
    assert_eq!(data.bins().len(), 3);
    assert!(data.bins().iter().all(|b| b.is_empty()));
}

#[test]
fn keys_go_to_first_matching_bin() {
    let mut data = Data::new(&config_with(vec!["user:*", "user:1*", "company:*"]));
    data.add_sample("user:15".to_string(), sample(1, -1, "string"));
    data.add_sample("company:2".to_string(), sample(1, -1, "string"));
    data.add_sample("session:9".to_string(), sample(1, -1, "string"));
    data.add_sample("user:2".to_string(), sample(1, -1, "string"));
    assert_eq!(data.count(), 4);
    let bins = data.bins();
    assert_eq!(bins[0], keys_of(&["user:15", "user:2"]));
    assert!(bins[1].is_empty());
    assert_eq!(bins[2], keys_of(&["company:2"]));
    assert_eq!(bins[3], keys_of(&["session:9"]));
    assert!(data.has_sample(&"session:9".to_string()));
    assert!(!data.has_sample(&"session:10".to_string()));
}

#[test]
fn adding_a_key_twice_changes_nothing() {
    let mut data = Data::new(&config_with(vec!["a*"]));
    data.add_sample("abc".to_string(), sample(10, 5, "string"));
    let bins_before = data.bins().clone();
    data.add_sample("abc".to_string(), sample(99, -1, "set"));
    assert_eq!(data.count(), 1);
    assert_eq!(data.bins(), &bins_before);
    assert_eq!(data.get_sample(&"abc".to_string()), Some(&sample(10, 5, "string")));
    assert_eq!(data.get_sample(&"zzz".to_string()), None);
}

#[test]
fn percentile_of_sorted_ends_and_middle() {
    let v = vec![1u64, 2, 3, 4, 5];
    assert_eq!(percentile_of_sorted(&v, 0), 100);
    assert_eq!(percentile_of_sorted(&v, 100), 500);
    assert_eq!(percentile_of_sorted(&v, 50), 300);
    assert_eq!(percentile_of_sorted(&v, 90), 460);
    assert_eq!(percentile_of_sorted(&vec![10u64, 20], 50), 1500);
    assert_eq!(percentile_of_sorted(&vec![10u64, 20], 99), 1990);
}

#[test]
fn percentile_of_single_value_is_that_value() {
    for p in [0u64, 1, 50, 99, 100] {
        assert_eq!(percentile_of_sorted(&vec![42u64], p), 4200);
    }
}

#[test]
fn sort_ascending_sorts() {
    let mut v = vec![5u64, 1, 4, 1, 3];
    sort_ascending(&mut v);
    assert_eq!(v, vec![1, 1, 3, 4, 5]);
}

#[test]
fn memory_aggregates_over_a_bin() {
    let mut data = Data::new(&config_with(vec![]));
    let names = keys_of(&["a", "b", "c", "d"]);
    for (k, m) in names.iter().zip([400u64, 100, 300, 200]) {
        data.add_sample(k.clone(), sample(m, -1, "string"));
    }
    assert!(data.all_sampled(&names, Stats::Memory));
    assert_eq!(memory::total(&data, &names), 1000);
    assert_eq!(memory::percentile(&data, &names, 50), 25000);
    assert_eq!(memory::percentile(&data, &names, 100), 40000);
    assert_eq!(memory::percentile(&data, &names, 0), 10000);
    assert_eq!(memory::percentile(&data, &vec![], 50), 0);
}

#[test]
fn all_sampled_detects_missing_fields() {
    let mut data = Data::new(&config_with(vec![]));
    data.add_sample(
        "a".to_string(),
        Sample {
            exists: SampleValue::Sampled(true),
            memory: SampleValue::NotFound,
            ttl: SampleValue::Unsampled,
            type_: SampleValue::Sampled("string".to_string()),
        },
    );
    let names = keys_of(&["a"]);
    assert!(!data.all_sampled(&names, Stats::Memory));
    assert!(!data.all_sampled(&names, Stats::Ttl));
    assert!(data.all_sampled(&names, Stats::Type));
    assert!(!data.all_sampled(&keys_of(&["b"]), Stats::Type));
}

#[test]
fn extrapolated_total_scales_by_sampled_fraction() {
    let mut data = Data::new(&config_with(vec![]));
    let names: Vec<String> = (0..10).map(|i| format!("key_{}", i)).collect();
    for k in &names {
        data.add_sample(k.clone(), sample(100, -1, "string"));
    }
    let metadata = Metadata { redis_db: 0, total_keys: 100 };
    assert_eq!(pct_keyspace_sampled(&metadata, &data), Fraction { part: 10, whole: 100 });
    assert_eq!(memory::total(&data, &names), 1000);
    assert_eq!(memory::total_estimate(&metadata, &data, &names), 10000);
    assert_eq!(keys::total_estimate(&metadata, &data, &names), 100);
    assert_eq!(keys::total_estimate(&metadata, &data, &names[..3].to_vec()), 30);
}

#[test]
fn extrapolation_clamps_coverage_at_one() {
    let mut data = Data::new(&config_with(vec![]));
    let names = keys_of(&["a", "b", "c"]);
    for k in &names {
        data.add_sample(k.clone(), sample(7, -1, "string"));
    }
    let metadata = Metadata { redis_db: 0, total_keys: 2 };
    assert_eq!(pct_keyspace_sampled(&metadata, &data), Fraction { part: 1, whole: 1 });
    assert_eq!(memory::total_estimate(&metadata, &data, &names), 21);
    assert_eq!(keys::total_estimate(&metadata, &data, &names), 3);
}

#[test]
fn extrapolate_rounds_to_nearest() {
    assert_eq!(extrapolate(10, Fraction { part: 3, whole: 10 }), 33);
    assert_eq!(extrapolate(1, Fraction { part: 2, whole: 3 }), 2);
    assert_eq!(extrapolate(2, Fraction { part: 3, whole: 4 }), 3);
    assert_eq!(extrapolate(0, Fraction { part: 0, whole: 0 }), 0);
    assert_eq!(extrapolate(5, Fraction { part: 0, whole: 9 }), u64::MAX);
    assert_eq!(extrapolate(u128::MAX, Fraction { part: 1, whole: 2 }), u64::MAX);
}

#[test]
fn ttl_coverage_counts_real_expiries() {
    let mut data = Data::new(&config_with(vec![]));
    let names = keys_of(&["a", "b", "c", "d"]);
    for (k, t) in names.iter().zip([5i64, -1, 10, -1]) {
        data.add_sample(k.clone(), sample(1, t, "string"));
    }
    let f = ttl::pct_with_ttl(&data, &names);
    assert_eq!(f, Fraction { part: 2, whole: 4 });
    assert_eq!(f.part as f64 / f.whole as f64 * 100.0, 50.0);
    assert_eq!(ttl::pct_with_ttl(&data, &vec![]), Fraction { part: 0, whole: 0 });
}

#[test]
fn ttl_percentile_ignores_keys_without_expiry_and_rounds() {
    let mut data = Data::new(&config_with(vec![]));
    let names = keys_of(&["a", "b", "c"]);
    for (k, t) in names.iter().zip([2i64, -1, 1]) {
        data.add_sample(k.clone(), sample(1, t, "string"));
    }
    assert_eq!(ttl::percentile(&data, &names, 50), 2);
    assert_eq!(ttl::percentile(&data, &names, 0), 1);
    assert_eq!(ttl::percentile(&data, &names, 100), 2);
    assert_eq!(ttl::percentile(&data, &keys_of(&["b"]), 50), 0);
}

#[test]
fn type_pcts_works() {
    let mut data = Data::new(&config_with(vec![]));
    let mut keys = Vec::new();

    for (idx, t) in ["set", "string", "string", "string"].iter().enumerate() {
        let key = format!("key_{}", idx);
        keys.push(key.clone());
        data.add_sample(
            key,
            Sample {
                exists: SampleValue::Unsampled,
                memory: SampleValue::Unsampled,
                ttl: SampleValue::Unsampled,
                type_: SampleValue::Sampled(t.to_string()),
            },
        );
    }

    let pcts: Vec<(String, f64)> = type_pcts(&data, &keys)
        .into_iter()
        .map(|(t, f)| (t, f.part as f64 / f.whole as f64 * 100.0))
        .collect();
    assert_eq!(
        pcts,
        vec![("string".to_string(), 75.0), ("set".to_string(), 25.0),]
    );
}

#[test]
fn type_counts_orders_by_count() {
    let mut data = Data::new(&config_with(vec![]));
    let names = keys_of(&["a", "b", "c", "d", "e", "f"]);
    for (k, t) in names.iter().zip(["hash", "list", "zset", "list", "zset", "zset"]) {
        data.add_sample(k.clone(), sample(1, -1, t));
    }
    assert_eq!(
        type_counts(&data, &names),
        vec![("zset".to_string(), 3), ("list".to_string(), 2), ("hash".to_string(), 1)]
    );
    assert!(type_counts(&data, &vec![]).is_empty());
}

#[test]
fn example_keys_takes_first_five() {
    let names = keys_of(&["a", "b", "c", "d", "e", "f", "g"]);
    assert_eq!(example_keys(&names), keys_of(&["a", "b", "c", "d", "e"]));
    assert_eq!(example_keys(&keys_of(&["x", "y"])), keys_of(&["x", "y"]));
    assert!(example_keys(&vec![]).is_empty());
}
