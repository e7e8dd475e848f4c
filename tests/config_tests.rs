use keyspace_stats::config::Config;
use keyspace_stats::output::OutputMode;
use keyspace_stats::sampling::SampleMode;
use keyspace_stats::stats::Stats;

fn config_with(stats: Vec<Stats>, patterns: Vec<&str>) -> Config {
    Config {
        sample_mode: SampleMode::Random,
        n_samples: 100,
        batch_size: 100,
        batch_sleep_ms: 100,
        stats,
        output_mode: OutputMode::Table,
        url: "redis://127.0.0.1".to_string(),
        patterns: patterns.into_iter().map(|p| p.to_string()).collect(),
    }
}

#[test]
fn config_stats_options() {
    for opt in &["memory", "ttl"] {
        opt.parse::<Stats>()
            .unwrap_or_else(|_| panic!("Unsupported: {}", opt));
    }
}

#[test]
fn stats_parse_every_name() {
    assert_eq!("memory".parse::<Stats>(), Ok(Stats::Memory));
    assert_eq!("ttl".parse::<Stats>(), Ok(Stats::Ttl));
    assert_eq!("type".parse::<Stats>(), Ok(Stats::Type));
    assert!("size".parse::<Stats>().is_err());
    assert_eq!(Stats::parse("TTL"), None);
}

#[test]
fn stats_all_in_canonical_order() {
    assert_eq!(Stats::all(), vec![Stats::Memory, Stats::Ttl, Stats::Type]);
}

#[test]
fn normalize_dedups_stats_and_appends_catch_all() {
    let mut config = config_with(
        vec![Stats::Ttl, Stats::Memory, Stats::Ttl, Stats::Memory],
        vec!["user:*", "company:*", "user:*"],
    );
    config.normalize();
    assert_eq!(config.stats, vec![Stats::Ttl, Stats::Memory]);
    assert_eq!(config.patterns, vec!["user:*", "company:*", "*"]);
    assert_eq!(config.n_samples, 100);
    assert_eq!(config.url, "redis://127.0.0.1");
}

#[test]
fn normalize_keeps_an_explicit_catch_all_in_place() {
    let mut config = config_with(vec![], vec!["*", "user:*"]);
    config.normalize();
    assert_eq!(config.patterns, vec!["*", "user:*"]);
    assert!(config.stats.is_empty());
}

#[test]
fn normalize_with_no_patterns_gives_catch_all_only() {
    let mut config = config_with(vec![Stats::Memory], vec![]);
    config.normalize();
    assert_eq!(config.patterns, vec!["*"]);
}

#[test]
fn has_stat_reports_requested_stats() {
    let config = config_with(vec![Stats::Memory, Stats::Type], vec![]);
    assert!(config.has_stat(&Stats::Memory));
    assert!(!config.has_stat(&Stats::Ttl));
    assert!(config.has_stat(&Stats::Type));
}
