use dupefinder::model::{FileInfo, ScanError, Timestamp};
use dupefinder::select::{KeepAllStrategy, KeepNoneStrategy};
use dupefinder::session::{
    potential_savings, AppState, DeletionFailure, DeletionReport, DuplicateGroup,
};

fn file(path: &str, size: u64, secs: i64, is_critical: bool) -> FileInfo {
    FileInfo {
        path: path.to_string(),
        size,
        modified_time: Some(Timestamp { secs, nanos: 0 }),
        is_critical,
    }
}

fn group(size: u64, flags: &[bool]) -> DuplicateGroup {
    let files = (0..flags.len()).map(|i| file(&format!("g{}/f{}", size, i), size, i as i64, false)).collect();
    DuplicateGroup { files, selected: flags.to_vec() }
}

fn state_with(groups: Vec<DuplicateGroup>) -> AppState {
    let mut state = AppState::default();
    state.import_results(groups);
    state
}

fn failed(reason: &str) -> Option<String> {
    Some(reason.to_string())
}

#[test]
fn default_state() {
    let state = AppState::default();
    assert_eq!(state.selected_dir, "");
    assert!(!state.scanning);
    assert!(state.duplicate_groups.is_empty());
    assert_eq!(state.total_size_savings, 0);
    assert_eq!(state.status_message, "");
    assert_eq!(state.config.buffer_size, 65536);
    assert!(!state.preview_mode);
}

#[test]
fn new_group_keeps_every_file() {
    let files = vec![file("a", 1, 0, false), file("b", 1, 0, false), file("c", 1, 0, false)];
    let fresh = DuplicateGroup::new(files.clone());
    assert_eq!(fresh.files, files);
    assert_eq!(fresh.selected, vec![true, true, true]);
    assert_eq!(fresh.marked_bytes(), 0);
    assert!(fresh.deletion_targets().is_empty());
}

#[test]
fn savings_are_the_sizes_of_the_marked_files() {
    assert_eq!(group(100, &[true, false, false]).marked_bytes(), 200);
    assert_eq!(group(100, &[true, true]).marked_bytes(), 0);
    assert_eq!(group(7, &[false, false, false]).marked_bytes(), 21);
    let groups = vec![group(100, &[true, false, false]), group(5, &[false, true]), group(9, &[true, true])];
    assert_eq!(potential_savings(&groups), 205);
    assert_eq!(potential_savings(&Vec::new()), 0);
}

#[test]
fn savings_stop_at_the_largest_number() {
    let huge = group(u64::MAX, &[false, false]);
    assert_eq!(huge.marked_bytes(), u64::MAX);
    let groups = vec![group(u64::MAX - 1, &[false, true]), group(1, &[false, false])];
    assert_eq!(potential_savings(&groups), u64::MAX);
    let exact = vec![group(u64::MAX - 1, &[false, true]), group(1, &[false, true])];
    assert_eq!(potential_savings(&exact), u64::MAX);
    let below = vec![group(u64::MAX - 2, &[false, true]), group(1, &[false, true])];
    assert_eq!(potential_savings(&below), u64::MAX - 1);
}

#[test]
fn file_without_a_flag_is_not_marked() {
    let mut short = group(10, &[false, false, false]);
    short.selected.truncate(1);
    assert_eq!(short.marked_bytes(), 10);
    assert_eq!(short.deletion_targets(), vec![0]);
    let mut long = group(10, &[false]);
    long.selected.extend([false, false]);
    assert_eq!(long.marked_bytes(), 10);
    assert_eq!(long.deletion_targets(), vec![0]);
}

#[test]
fn calculate_savings_updates_the_total() {
    let mut state = AppState::default();
    state.duplicate_groups = vec![group(3, &[true, false]), group(4, &[false, false])];
    assert_eq!(state.total_size_savings, 0);
    state.calculate_savings();
    assert_eq!(state.total_size_savings, 11);
}

#[test]
fn scan_begins_only_with_a_directory_and_when_idle() {
    let mut state = state_with(vec![group(1, &[true, false])]);
    state.status_message = "old".to_string();
    let before = state_with(vec![group(1, &[true, false])]);
    assert!(!state.begin_scan());
    assert_eq!(state.duplicate_groups, before.duplicate_groups);
    assert_eq!(state.status_message, "old");

    state.selected_dir = "/data".to_string();
    assert!(state.begin_scan());
    assert!(state.scanning);
    assert!(state.duplicate_groups.is_empty());
    assert_eq!(state.total_size_savings, 0);
    assert_eq!(state.status_message, "");
    assert_eq!(state.selected_dir, "/data");

    assert!(!state.begin_scan());
    assert!(state.scanning);
}

#[test]
fn scan_result_is_shown_with_every_file_kept() {
    let mut state = AppState::default();
    state.selected_dir = "/data".to_string();
    state.begin_scan();
    let found = vec![
        vec![file("a", 5, 1, false), file("b", 5, 2, false)],
        vec![file("c", 9, 1, false), file("d", 9, 2, false), file("e", 9, 3, false)],
    ];
    assert_eq!(state.finish_scan(Ok(found.clone())), Ok(2));
    assert!(!state.scanning);
    assert_eq!(state.duplicate_groups.len(), 2);
    assert_eq!(state.duplicate_groups[1].files, found[1]);
    assert_eq!(state.duplicate_groups[1].selected, vec![true, true, true]);
    assert_eq!(state.total_size_savings, 0);
}

#[test]
fn failed_scan_keeps_the_groups() {
    let mut state = state_with(vec![group(1, &[true, false])]);
    state.scanning = true;
    let error = ScanError::TraversalError("no such directory".to_string());
    assert_eq!(state.finish_scan(Err(error.clone())), Err(error));
    assert!(!state.scanning);
    assert_eq!(state.duplicate_groups.len(), 1);
    assert_eq!(state.total_size_savings, 1);
}

#[test]
fn select_newest_and_oldest_in_one_group() {
    let files = vec![file("a", 10, 20, false), file("b", 10, 30, false), file("c", 10, 10, false)];
    let mut state = state_with(vec![DuplicateGroup::new(files.clone()), DuplicateGroup::new(files)]);
    state.select_newest(0);
    assert_eq!(state.duplicate_groups[0].selected, vec![false, true, false]);
    assert_eq!(state.duplicate_groups[1].selected, vec![true, true, true]);
    assert_eq!(state.total_size_savings, 20);
    state.select_oldest(1);
    assert_eq!(state.duplicate_groups[1].selected, vec![false, false, true]);
    assert_eq!(state.total_size_savings, 40);
}

#[test]
fn strategy_on_a_missing_group_changes_no_flag() {
    let mut state = state_with(vec![group(10, &[true, false])]);
    state.total_size_savings = 0;
    state.select_newest(1);
    assert_eq!(state.duplicate_groups[0].selected, vec![true, false]);
    assert_eq!(state.total_size_savings, 10);
}

#[test]
fn bulk_strategies_reach_every_group() {
    let mut state = state_with(vec![group(10, &[true, true, true]), group(3, &[true, true])]);
    state.bulk_select_newest();
    assert_eq!(state.duplicate_groups[0].selected, vec![false, false, true]);
    assert_eq!(state.duplicate_groups[1].selected, vec![false, true]);
    assert_eq!(state.total_size_savings, 23);
    state.bulk_select_oldest();
    assert_eq!(state.duplicate_groups[0].selected, vec![true, false, false]);
    assert_eq!(state.duplicate_groups[1].selected, vec![true, false]);
    state.bulk_apply_selection_strategy(&KeepNoneStrategy);
    assert_eq!(state.total_size_savings, 36);
    state.apply_selection_strategy(&KeepAllStrategy, 0);
    assert_eq!(state.total_size_savings, 6);
}

#[test]
fn import_replaces_the_groups() {
    let mut state = state_with(vec![group(1, &[true, false])]);
    assert_eq!(state.import_results(vec![group(8, &[false, false]), group(2, &[true, false])]), 2);
    assert_eq!(state.duplicate_groups.len(), 2);
    assert_eq!(state.total_size_savings, 18);
}

#[test]
fn deletion_targets_are_the_marked_files() {
    assert_eq!(group(1, &[true, false, true, false, false]).deletion_targets(), vec![1, 3, 4]);
    assert!(group(1, &[true, true]).deletion_targets().is_empty());
}

#[test]
fn critical_paths_are_those_of_marked_critical_files() {
    let files = vec![
        file("~/.ssh/a", 1, 0, true),
        file("~/.ssh/b", 1, 0, true),
        file("~/c", 1, 0, false),
        file("~/.ssh/d", 1, 0, true),
    ];
    let marked = DuplicateGroup { files, selected: vec![true, false, false, false] };
    assert_eq!(marked.critical_paths(), vec!["~/.ssh/b", "~/.ssh/d"]);
}

#[test]
fn successful_deletion_removes_the_group() {
    let mut state = state_with(vec![group(10, &[true, false, false]), group(4, &[false, true])]);
    assert_eq!(state.total_size_savings, 24);
    let report = state.delete_unchecked(0, &vec![None, None]);
    assert_eq!(
        report,
        Some(DeletionReport {
            preview: false,
            deleted: 2,
            groups_affected: 1,
            critical: Vec::new(),
            failures: Vec::new(),
        })
    );
    assert_eq!(state.duplicate_groups, vec![group(4, &[false, true])]);
    assert_eq!(state.total_size_savings, 4);
}

#[test]
fn failed_deletion_keeps_the_group_and_names_the_file() {
    let mut state = state_with(vec![group(10, &[true, false, false])]);
    let report = state.delete_unchecked(0, &vec![None, failed("read-only")]).unwrap();
    assert_eq!(report.deleted, 1);
    assert_eq!(
        report.failures,
        vec![DeletionFailure { path: "g10/f2".to_string(), reason: "read-only".to_string() }]
    );
    assert_eq!(state.duplicate_groups, vec![group(10, &[true, false, false])]);
    assert_eq!(state.total_size_savings, 20);
}

#[test]
fn group_without_marked_files_is_removed_too() {
    let mut state = state_with(vec![group(10, &[true, true])]);
    let report = state.delete_unchecked(0, &Vec::new()).unwrap();
    assert_eq!((report.deleted, report.groups_affected), (0, 0));
    assert!(state.duplicate_groups.is_empty());
}

#[test]
fn deletion_in_a_missing_group_does_nothing() {
    let mut state = state_with(vec![group(10, &[true, false])]);
    assert_eq!(state.delete_unchecked(1, &vec![None]), None);
    assert_eq!(state.duplicate_groups.len(), 1);
}

#[test]
fn preview_counts_without_removing() {
    let mut state = state_with(vec![DuplicateGroup {
        files: vec![file("~/.aws/a", 6, 0, true), file("~/b", 6, 0, false), file("~/c", 6, 0, false)],
        selected: vec![false, true, false],
    }]);
    state.preview_mode = true;
    let report = state.delete_unchecked(0, &Vec::new()).unwrap();
    assert_eq!(
        report,
        DeletionReport {
            preview: true,
            deleted: 2,
            groups_affected: 1,
            critical: vec!["~/.aws/a".to_string()],
            failures: Vec::new(),
        }
    );
    assert_eq!(state.duplicate_groups.len(), 1);
    assert_eq!(state.total_size_savings, 12);
}

#[test]
fn bulk_deletion_removes_the_groups_it_touched() {
    let mut state = state_with(vec![
        group(10, &[true, false]),
        group(20, &[true, true]),
        group(30, &[false, false, true]),
        group(40, &[true, false]),
    ]);
    let outcomes = vec![vec![None], vec![], vec![failed("busy"), None], vec![failed("gone")]];
    let report = state.bulk_delete_unchecked(&outcomes);
    assert_eq!(report.preview, false);
    assert_eq!(report.deleted, 2);
    assert_eq!(report.groups_affected, 2);
    assert_eq!(
        report.failures,
        vec![
            DeletionFailure { path: "g30/f0".to_string(), reason: "busy".to_string() },
            DeletionFailure { path: "g40/f1".to_string(), reason: "gone".to_string() },
        ]
    );
    assert_eq!(state.duplicate_groups, vec![group(20, &[true, true]), group(40, &[true, false])]);
    assert_eq!(state.total_size_savings, 40);
}

#[test]
fn bulk_preview_counts_every_marked_file() {
    let critical = DuplicateGroup {
        files: vec![file("~/.kube/x", 1, 0, true), file("~/.kube/y", 1, 0, true)],
        selected: vec![false, false],
    };
    let mut state = state_with(vec![group(10, &[true, false]), critical, group(5, &[true, true])]);
    state.preview_mode = true;
    let report = state.bulk_delete_unchecked(&Vec::new());
    assert_eq!(
        report,
        DeletionReport {
            preview: true,
            deleted: 3,
            groups_affected: 2,
            critical: vec!["~/.kube/x".to_string(), "~/.kube/y".to_string()],
            failures: Vec::new(),
        }
    );
    assert_eq!(state.duplicate_groups.len(), 3);
    assert_eq!(state.total_size_savings, 12);
}

#[test]
fn bulk_deletion_without_groups() {
    let mut state = AppState::default();
    let report = state.bulk_delete_unchecked(&Vec::new());
    assert_eq!((report.deleted, report.groups_affected), (0, 0));
    assert!(report.failures.is_empty() && report.critical.is_empty());
}

#[test]
fn import_says_how_many_groups_were_read() {
    let mut state = AppState::default();
    state.total_size_savings = 9;
    assert_eq!(state.import_results(Vec::new()), 0);
    assert!(state.duplicate_groups.is_empty());
    assert_eq!(state.total_size_savings, 0);
    assert_eq!(state.status_message, "Imported 0 duplicate group(s)");

    let read = DuplicateGroup {
        files: vec![
            FileInfo { path: "a".to_string(), size: 5, modified_time: None, is_critical: false },
            FileInfo { path: "b".to_string(), size: 5, modified_time: None, is_critical: true },
        ],
        selected: vec![true, false],
    };
    let mut state = AppState::default();
    assert_eq!(state.import_results(vec![read]), 1);
    assert_eq!(state.duplicate_groups.len(), 1);
    assert_eq!(state.duplicate_groups[0].selected, vec![true, false]);
    assert_eq!(state.total_size_savings, 5);
    assert_eq!(state.status_message, "Imported 1 duplicate group(s)");

    let many: Vec<DuplicateGroup> = (0..12).map(|_| group(1, &[true, true])).collect();
    state.import_results(many);
    assert_eq!(state.status_message, "Imported 12 duplicate group(s)");
}

#[test]
fn import_keeps_the_options() {
    let mut state = AppState::default();
    state.selected_dir = "/data".to_string();
    state.preview_mode = true;
    state.scanning = true;
    state.config.min_file_size = 77;
    state.import_results(vec![group(1, &[true, false])]);
    assert_eq!(state.selected_dir, "/data");
    assert!(state.preview_mode);
    assert!(state.scanning);
    assert_eq!(state.config.min_file_size, 77);
}

#[test]
fn finished_scan_says_what_it_found() {
    let mut state = AppState::default();
    state.status_message = "old".to_string();
    assert_eq!(state.finish_scan(Ok(Vec::new())), Ok(0));
    assert_eq!(state.status_message, "No duplicates found.");

    let found = vec![
        vec![file("a", 5, 1, false), file("b", 5, 2, false)],
        vec![file("c", 9, 1, false), file("d", 9, 2, false)],
    ];
    assert_eq!(state.finish_scan(Ok(found)), Ok(2));
    assert_eq!(state.status_message, "Found 2 duplicate group(s)!");
}

#[test]
fn failed_scan_says_why() {
    let mut state = state_with(vec![group(1, &[true, false])]);
    state.scanning = true;
    let error = ScanError::TraversalError("no such directory".to_string());
    assert_eq!(state.finish_scan(Err(error.clone())), Err(error.clone()));
    assert!(!state.scanning);
    assert_eq!(state.status_message, "Scan error: TraversalError(\"no such directory\")");
    assert_eq!(state.status_message, format!("Scan error: {:?}", error));
    assert_eq!(state.duplicate_groups, vec![group(1, &[true, false])]);

    let _ = state.finish_scan(Err(ScanError::IoError("disk".to_string())));
    assert_eq!(state.status_message, "Scan error: IoError(\"disk\")");
}

#[test]
fn preview_of_a_deletion_says_what_would_be_deleted() {
    let shown = DuplicateGroup {
        files: vec![
            FileInfo { path: "a".to_string(), size: 5, modified_time: None, is_critical: false },
            FileInfo { path: "b".to_string(), size: 5, modified_time: None, is_critical: false },
        ],
        selected: vec![true, false],
    };
    let mut state = state_with(vec![shown]);
    state.preview_mode = true;
    state.delete_unchecked(0, &Vec::new()).unwrap();
    assert_eq!(state.duplicate_groups.len(), 1);
    assert_eq!(state.duplicate_groups[0].selected, vec![true, false]);
    assert_eq!(state.duplicate_groups[0].files.len(), 2);
    assert_eq!(state.status_message, "\u{2713} Would delete 1 file(s) from group 1");
}

#[test]
fn deletion_says_how_many_files_went() {
    let mut state = state_with(vec![group(4, &[false, true]), group(10, &[true, false, false])]);
    state.delete_unchecked(1, &vec![None, None]).unwrap();
    assert_eq!(state.status_message, "\u{2713} Deleted 2 file(s) from group 2");
    state.delete_unchecked(0, &vec![None]).unwrap();
    assert_eq!(state.status_message, "\u{2713} Deleted 1 file(s) from group 1");
    assert!(state.duplicate_groups.is_empty());
}

#[test]
fn deletion_warns_of_critical_files() {
    let shown = || DuplicateGroup {
        files: vec![file("~/.aws/a", 6, 0, true), file("~/b", 6, 0, false), file("~/.aws/c", 6, 0, true)],
        selected: vec![false, true, false],
    };
    let mut state = state_with(vec![shown()]);
    state.preview_mode = true;
    state.delete_unchecked(0, &Vec::new()).unwrap();
    assert_eq!(
        state.status_message,
        "\u{2713} Would delete 2 file(s) from group 1 \u{26a0}\u{fe0f} 2 CRITICAL file(s) detected! \
         Files: ~/.aws/a, ~/.aws/c"
    );

    let mut state = state_with(vec![shown()]);
    state.delete_unchecked(0, &vec![None, None]).unwrap();
    assert_eq!(
        state.status_message,
        "\u{2713} Deleted 2 file(s) from group 1 \u{26a0}\u{fe0f} 2 CRITICAL file(s) detected!"
    );
}

#[test]
fn failed_deletion_lists_every_failure() {
    let mut state = state_with(vec![group(10, &[false, false, false, false, true])]);
    let outcomes = vec![failed("busy"), None, failed("read-only"), failed("gone")];
    let report = state.delete_unchecked(0, &outcomes).unwrap();
    assert_eq!(report.deleted, 1);
    assert_eq!(report.failures.len(), 3);
    assert_eq!(
        state.status_message,
        "\u{26a0} Errors: Failed to delete g10/f0: busy; Failed to delete g10/f2: read-only; \
         Failed to delete g10/f3: gone"
    );
    assert_eq!(state.duplicate_groups.len(), 1);
    assert_eq!(state.total_size_savings, 40);
}

#[test]
fn deletion_in_a_missing_group_keeps_the_status() {
    let mut state = state_with(vec![group(10, &[true, false])]);
    state.status_message = "old".to_string();
    assert_eq!(state.delete_unchecked(1, &vec![None]), None);
    assert_eq!(state.status_message, "old");
}

#[test]
fn bulk_preview_says_what_would_be_deleted() {
    let pair = |a: &str, b: &str, size: u64, flags: [bool; 2]| DuplicateGroup {
        files: vec![
            FileInfo { path: a.to_string(), size, modified_time: None, is_critical: false },
            FileInfo { path: b.to_string(), size, modified_time: None, is_critical: false },
        ],
        selected: flags.to_vec(),
    };
    let mut state = AppState::default();
    state.duplicate_groups = vec![pair("a", "b", 5, [true, false]), pair("c", "d", 9, [true, true])];
    state.total_size_savings = 5;
    state.preview_mode = true;
    state.bulk_delete_unchecked(&Vec::new());
    assert_eq!(
        state.duplicate_groups,
        vec![pair("a", "b", 5, [true, false]), pair("c", "d", 9, [true, true])]
    );
    assert_eq!(state.total_size_savings, 5);
    assert_eq!(state.status_message, "\u{2713} Would bulk delete 1 file(s) across 1 group(s).");
}

#[test]
fn bulk_deletion_says_how_many_files_went() {
    let mut state = state_with(vec![group(10, &[true, false, false]), group(3, &[true, true]), group(4, &[false, true])]);
    state.bulk_delete_unchecked(&vec![vec![None, None], vec![], vec![None]]);
    assert_eq!(state.status_message, "\u{2713} Bulk deleted 3 file(s) across 2 group(s).");
    assert_eq!(state.duplicate_groups, vec![group(3, &[true, true])]);
}

#[test]
fn bulk_preview_names_up_to_five_critical_files() {
    let critical = |count: usize| DuplicateGroup {
        files: (0..count).map(|i| file(&format!("~/.ssh/k{}", i), 1, 0, true)).collect(),
        selected: vec![false; count],
    };
    let mut state = state_with(vec![critical(2), group(7, &[true, false]), critical(3)]);
    state.preview_mode = true;
    state.bulk_delete_unchecked(&Vec::new());
    assert_eq!(
        state.status_message,
        "\u{2713} Would bulk delete 6 file(s) across 3 group(s). \u{26a0}\u{fe0f} 5 CRITICAL file(s) \
         detected! Files: ~/.ssh/k0, ~/.ssh/k1, ~/.ssh/k0, ~/.ssh/k1, ~/.ssh/k2"
    );

    let mut state = state_with(vec![critical(4), critical(3)]);
    state.preview_mode = true;
    state.bulk_delete_unchecked(&Vec::new());
    assert_eq!(
        state.status_message,
        "\u{2713} Would bulk delete 7 file(s) across 2 group(s). \u{26a0}\u{fe0f} 7 CRITICAL file(s) \
         detected! First 5: ~/.ssh/k0, ~/.ssh/k1, ~/.ssh/k2, ~/.ssh/k3, ~/.ssh/k0"
    );

    let mut state = state_with(vec![critical(4), critical(3)]);
    let outcomes = vec![vec![None, None, None, None], vec![None, None, None]];
    state.bulk_delete_unchecked(&outcomes);
    assert_eq!(
        state.status_message,
        "\u{2713} Bulk deleted 7 file(s) across 2 group(s). \u{26a0}\u{fe0f} 7 CRITICAL file(s) detected!"
    );
}

#[test]
fn bulk_deletion_with_failures_lists_the_first_three() {
    let mut state = state_with(vec![group(10, &[false, false, false]), group(20, &[false, false])]);
    let outcomes = vec![
        vec![failed("busy"), failed("gone"), None],
        vec![failed("read-only"), failed("locked")],
    ];
    let report = state.bulk_delete_unchecked(&outcomes);
    assert_eq!(report.failures.len(), 4);
    assert_eq!(
        state.status_message,
        "\u{26a0} Bulk delete finished with 4 errors: Failed to delete g10/f0: busy; \
         Failed to delete g10/f1: gone; Failed to delete g20/f0: read-only"
    );
    assert_eq!(state.duplicate_groups, vec![group(20, &[false, false])]);

    let mut state = state_with(vec![group(10, &[true, false])]);
    state.bulk_delete_unchecked(&vec![vec![failed("busy")]]);
    assert_eq!(
        state.status_message,
        "\u{26a0} Bulk delete finished with 1 errors: Failed to delete g10/f1: busy"
    );
}

#[test]
fn report_is_described_as_the_status_says() {
    let report = DeletionReport {
        preview: true,
        deleted: 120,
        groups_affected: 7,
        critical: Vec::new(),
        failures: Vec::new(),
    };
    assert_eq!(report.describe_group(31), "\u{2713} Would delete 120 file(s) from group 31");
    assert_eq!(report.describe_bulk(), "\u{2713} Would bulk delete 120 file(s) across 7 group(s).");
    let failure = DeletionFailure { path: "p".to_string(), reason: "denied".to_string() };
    assert_eq!(failure.describe(), "Failed to delete p: denied");
}
