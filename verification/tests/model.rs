use dupefinder::model::{FileInfo, ScanConfig, Timestamp, NANOS_PER_SEC};

#[test]
fn default_config() {
    let config = ScanConfig::default();
    assert_eq!(config.buffer_size, 65536);
    assert!(!config.include_hidden);
    assert_eq!(config.min_file_size, 1);
    assert_eq!(config.max_threads, None);
    assert!(config.is_valid());
}

#[test]
fn config_needs_a_positive_buffer_and_thread_cap() {
    let default = ScanConfig::default();
    assert!(!ScanConfig { buffer_size: 0, ..default }.is_valid());
    assert!(ScanConfig { buffer_size: 1, ..default }.is_valid());
    assert!(!ScanConfig { max_threads: Some(0), ..default }.is_valid());
    assert!(ScanConfig { max_threads: Some(1), ..default }.is_valid());
}

#[test]
fn parallelism_is_the_cap_or_the_system_default() {
    let default = ScanConfig::default();
    assert_eq!(default.parallelism(8), 8);
    assert_eq!(ScanConfig { max_threads: Some(3), ..default }.parallelism(8), 3);
    assert_eq!(ScanConfig { max_threads: Some(16), ..default }.parallelism(8), 16);
}

#[test]
fn clone_of_a_record_is_equal() {
    let file = FileInfo {
        path: "/a/b".to_string(),
        size: 7,
        modified_time: Some(Timestamp { secs: -3, nanos: 9 }),
        is_critical: true,
    };
    assert_eq!(file.clone(), file);
}

#[test]
fn timestamps_compare_by_seconds_then_nanoseconds() {
    let t = |secs, nanos| Timestamp { secs, nanos };
    assert!(t(1, 0).is_before(&t(2, 0)));
    assert!(t(1, 5).is_before(&t(1, 6)));
    assert!(!t(1, 6).is_before(&t(1, 6)));
    assert!(!t(2, 0).is_before(&t(1, 999_999_999)));
    assert!(t(-2, 999_999_999).is_before(&t(-1, 0)));
}

#[test]
fn time_after_the_epoch() {
    assert_eq!(Timestamp::after_epoch(0, 0), Some(Timestamp { secs: 0, nanos: 0 }));
    assert_eq!(Timestamp::after_epoch(12, 34), Some(Timestamp { secs: 12, nanos: 34 }));
    assert_eq!(
        Timestamp::after_epoch(i64::MAX as u64, 999_999_999),
        Some(Timestamp { secs: i64::MAX, nanos: 999_999_999 })
    );
    assert_eq!(Timestamp::after_epoch(i64::MAX as u64 + 1, 0), None);
}

#[test]
fn time_before_the_epoch() {
    assert_eq!(Timestamp::before_epoch(0, 0), Some(Timestamp { secs: 0, nanos: 0 }));
    assert_eq!(Timestamp::before_epoch(5, 0), Some(Timestamp { secs: -5, nanos: 0 }));
    assert_eq!(Timestamp::before_epoch(0, 1), Some(Timestamp { secs: -1, nanos: 999_999_999 }));
    assert_eq!(
        Timestamp::before_epoch(5, 250_000_000),
        Some(Timestamp { secs: -6, nanos: 750_000_000 })
    );
    assert_eq!(Timestamp::before_epoch(i64::MAX as u64, 0), None);
    assert_eq!(NANOS_PER_SEC, 1_000_000_000);
}

#[test]
fn conversion_keeps_the_order_of_instants() {
    let earlier = Timestamp::before_epoch(1, 500_000_000).unwrap();
    let later = Timestamp::before_epoch(1, 499_999_999).unwrap();
    let epoch = Timestamp::after_epoch(0, 0).unwrap();
    let after = Timestamp::after_epoch(0, 1).unwrap();
    assert!(earlier.is_before(&later));
    assert!(later.is_before(&epoch));
    assert!(epoch.is_before(&after));
    assert!(!after.is_before(&earlier));
}
