use std::path::Path;

use dupefinder::model::{FileInfo, ScanConfig, ScanError, ScanPhase, ScanProgress};
use dupefinder::scan::{FileMetadata, WalkEntry};
use dupefinder::tree::{scan_directory, TreeFile, WalkStep};

/// Scans a tree and drops the progress events.
fn scan(walk: Vec<WalkStep>, config: &ScanConfig) -> Result<Vec<Vec<FileInfo>>, ScanError> {
    scan_directory(walk, &mut Vec::new(), config)
}

fn names_of(path: &str) -> Vec<Option<String>> {
    Path::new(path)
        .ancestors()
        .map(|step| step.file_name().and_then(|name| name.to_str()).map(String::from))
        .collect()
}

fn found(path: &str, content: &[u8]) -> WalkStep {
    WalkStep::Found(TreeFile {
        entry: WalkEntry {
            path: path.to_string(),
            names: names_of(path),
            is_file: true,
            metadata: Some(FileMetadata { size: content.len() as u64, modified_time: None }),
        },
        content: Ok(content.to_vec()),
    })
}

fn unreadable(path: &str, size: u64, reason: &str) -> WalkStep {
    WalkStep::Found(TreeFile {
        entry: WalkEntry {
            path: path.to_string(),
            names: names_of(path),
            is_file: true,
            metadata: Some(FileMetadata { size, modified_time: None }),
        },
        content: Err(reason.to_string()),
    })
}

fn directory(path: &str) -> WalkStep {
    WalkStep::Found(TreeFile {
        entry: WalkEntry {
            path: path.to_string(),
            names: names_of(path),
            is_file: false,
            metadata: None,
        },
        content: Err("is a directory".to_string()),
    })
}

fn failed(depth: usize, reason: &str) -> WalkStep {
    WalkStep::Failed { depth, reason: reason.to_string() }
}

fn paths(groups: &[Vec<FileInfo>]) -> Vec<Vec<&str>> {
    groups.iter().map(|g| g.iter().map(|f| f.path.as_str()).collect()).collect()
}

#[test]
fn scan_of_three_files_with_one_pair() {
    let walk = vec![
        directory("root"),
        found("root/A", &[b'X'; 100]),
        found("root/B", &[b'X'; 100]),
        found("root/C", &[b'Y'; 100]),
    ];
    let groups = scan(walk, &ScanConfig::default()).unwrap();
    assert_eq!(paths(&groups), vec![vec!["root/A", "root/B"]]);
}

#[test]
fn scan_flags_the_pair_below_a_critical_directory() {
    let walk = vec![found("~/.ssh/config", b"Host *"), found("~/.ssh/config.old", b"Host *")];
    let groups = scan(walk, &ScanConfig::default()).unwrap();
    assert_eq!(groups.len(), 1);
    assert_eq!(groups[0].len(), 2);
    assert!(groups[0].iter().all(|file| file.is_critical));
}

#[test]
fn scan_with_minimum_size_above_the_files() {
    let config = ScanConfig { min_file_size: 1024, ..ScanConfig::default() };
    let walk = vec![found("a", b"0123456789"), found("b", b"0123456789")];
    assert_eq!(scan(walk, &config), Ok(Vec::new()));
}

#[test]
fn scan_where_one_of_two_files_cannot_be_hashed() {
    let walk = vec![found("a", b"same bytes"), unreadable("b", 10, "input/output error")];
    assert_eq!(scan(walk, &ScanConfig::default()), Ok(Vec::new()));
}

#[test]
fn scan_fails_when_the_root_cannot_be_read() {
    let walk = vec![failed(0, "root: no such file or directory")];
    assert_eq!(
        scan(walk, &ScanConfig::default()),
        Err(ScanError::TraversalError("root: no such file or directory".to_string()))
    );
}

#[test]
fn scan_reports_the_first_failure_of_the_root() {
    let walk = vec![found("a", b"x"), failed(0, "first"), found("b", b"x"), failed(0, "second")];
    assert_eq!(
        scan(walk, &ScanConfig::default()),
        Err(ScanError::TraversalError("first".to_string()))
    );
}

#[test]
fn scan_passes_over_failures_below_the_root() {
    let walk = vec![
        found("root/a", b"twin"),
        failed(1, "root/locked: permission denied"),
        found("root/b", b"twin"),
        failed(3, "root/x/y/z: vanished"),
    ];
    let groups = scan(walk, &ScanConfig::default()).unwrap();
    assert_eq!(paths(&groups), vec![vec!["root/a", "root/b"]]);
}

#[test]
fn scan_of_nothing() {
    assert_eq!(scan(Vec::new(), &ScanConfig::default()), Ok(Vec::new()));
}

#[test]
fn scan_keeps_discovery_order_within_groups() {
    let walk = vec![
        found("z", b"11"),
        found("m", b"22"),
        found("a", b"11"),
        found("k", b"22"),
        found("b", b"11"),
    ];
    let groups = scan(walk, &ScanConfig::default()).unwrap();
    assert_eq!(paths(&groups), vec![vec!["z", "a", "b"], vec!["m", "k"]]);
}

#[test]
fn scan_goes_by_the_size_seen_at_discovery() {
    let stale = WalkStep::Found(TreeFile {
        entry: WalkEntry {
            path: "grown".to_string(),
            names: names_of("grown"),
            is_file: true,
            metadata: Some(FileMetadata { size: 3, modified_time: None }),
        },
        content: Ok(b"same".to_vec()),
    });
    let walk = vec![found("a", b"same"), stale, found("b", b"same")];
    let groups = scan(walk, &ScanConfig::default()).unwrap();
    assert_eq!(paths(&groups), vec![vec!["a", "b"]]);
}

#[test]
fn scan_result_is_the_same_for_every_buffer_size() {
    let content: Vec<u8> = (0..300u32).map(|i| (i * 7 % 256) as u8).collect();
    let mut other = content.clone();
    other[299] ^= 1;
    for buffer_size in [1usize, 64, 299, 300, 301, 65536] {
        let config = ScanConfig { buffer_size, ..ScanConfig::default() };
        let walk = vec![found("a", &content), found("b", &other), found("c", &content)];
        let groups = scan(walk, &config).unwrap();
        assert_eq!(paths(&groups), vec![vec!["a", "c"]]);
    }
}

#[test]
fn scan_reports_discovery_and_every_file_hashed() {
    let walk = vec![
        found("a", b"11"),
        found("b", b"222"),
        found("c", b"3"),
        found("d", b"444"),
        found("e", b"55"),
        found("f", b"666"),
    ];
    let mut progress = Vec::new();
    scan_directory(walk, &mut progress, &ScanConfig::default()).unwrap();
    let event = |current: usize, label: &str| ScanProgress {
        current,
        total: 6,
        current_file: label.to_string(),
        phase: ScanPhase::Hashing,
    };
    let discovery_over = ScanProgress {
        current: 6,
        total: 6,
        current_file: "Discovery complete".to_string(),
        phase: ScanPhase::Discovery,
    };
    assert_eq!(
        progress,
        vec![
            discovery_over,
            event(1, "a"),
            event(2, "e"),
            event(3, "b"),
            event(4, "d"),
            event(5, "f"),
        ]
    );
}

#[test]
fn scan_adds_its_events_after_those_already_there() {
    let earlier = ScanProgress {
        current: 0,
        total: 0,
        current_file: "before".to_string(),
        phase: ScanPhase::Discovery,
    };
    let mut progress = vec![earlier.clone()];
    scan_directory(vec![found("a", b"1")], &mut progress, &ScanConfig::default()).unwrap();
    assert_eq!(progress.len(), 2);
    assert_eq!(progress[0], earlier);
    assert_eq!((progress[1].current, progress[1].total), (1, 1));
    assert_eq!(progress[1].phase, ScanPhase::Discovery);
}

#[test]
fn failed_scan_reports_no_progress() {
    let mut progress = Vec::new();
    let walk = vec![found("a", b"1"), failed(0, "gone")];
    assert!(scan_directory(walk, &mut progress, &ScanConfig::default()).is_err());
    assert!(progress.is_empty());
}
