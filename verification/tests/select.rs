use dupefinder::model::{FileInfo, Timestamp};
use dupefinder::select::{
    is_earlier, KeepAllStrategy, KeepNewestStrategy, KeepNoneStrategy, KeepOldestStrategy,
    SelectionStrategy, Strategy,
};

fn at(secs: i64, nanos: u32) -> Option<Timestamp> {
    Some(Timestamp { secs, nanos })
}

fn group(times: &[Option<Timestamp>]) -> Vec<FileInfo> {
    times
        .iter()
        .enumerate()
        .map(|(i, time)| FileInfo {
            path: format!("file{}", i),
            size: 100,
            modified_time: *time,
            is_critical: false,
        })
        .collect()
}

#[test]
fn missing_time_is_earlier_than_any_time() {
    assert!(is_earlier(&None, &at(i64::MIN, 0)));
    assert!(!is_earlier(&at(i64::MIN, 0), &None));
    assert!(!is_earlier(&None, &None));
}

#[test]
fn times_order_by_seconds_then_nanoseconds() {
    assert!(is_earlier(&at(1, 999_999_999), &at(2, 0)));
    assert!(is_earlier(&at(5, 1), &at(5, 2)));
    assert!(!is_earlier(&at(5, 2), &at(5, 2)));
    assert!(!is_earlier(&at(5, 3), &at(5, 2)));
    assert!(is_earlier(&at(-1, 0), &at(0, 0)));
}

#[test]
fn keep_newest_marks_the_latest_file() {
    let files = group(&[at(10, 0), at(30, 0), at(20, 0)]);
    assert_eq!(KeepNewestStrategy.select(&files), vec![false, true, false]);
}

#[test]
fn keep_newest_never_picks_a_missing_time() {
    let files = group(&[None, at(-5, 0), None]);
    assert_eq!(KeepNewestStrategy.select(&files), vec![false, true, false]);
}

#[test]
fn keep_newest_takes_the_first_of_equal_times() {
    let files = group(&[at(1, 0), at(7, 5), at(7, 5), at(3, 0), at(7, 5)]);
    assert_eq!(KeepNewestStrategy.select(&files), vec![false, true, false, false, false]);
}

#[test]
fn keep_newest_without_any_time_keeps_the_first() {
    let files = group(&[None, None, None]);
    assert_eq!(KeepNewestStrategy.select(&files), vec![true, false, false]);
}

#[test]
fn keep_oldest_marks_the_earliest_file() {
    let files = group(&[at(20, 0), at(10, 0), at(30, 0)]);
    assert_eq!(KeepOldestStrategy.select(&files), vec![false, true, false]);
}

#[test]
fn keep_oldest_favours_a_missing_time() {
    let files = group(&[at(20, 0), None, at(10, 0), None]);
    assert_eq!(KeepOldestStrategy.select(&files), vec![false, true, false, false]);
}

#[test]
fn keep_oldest_takes_the_first_of_equal_times() {
    let files = group(&[at(9, 0), at(2, 2), at(2, 2), at(2, 3)]);
    assert_eq!(KeepOldestStrategy.select(&files), vec![false, true, false, false]);
}

#[test]
fn keep_all_and_keep_none() {
    let files = group(&[at(1, 0), None, at(3, 0)]);
    assert_eq!(KeepAllStrategy.select(&files), vec![true, true, true]);
    assert_eq!(KeepNoneStrategy.select(&files), vec![false, false, false]);
}

#[test]
fn strategies_on_an_empty_group() {
    let files: Vec<FileInfo> = Vec::new();
    assert_eq!(KeepNewestStrategy.select(&files), Vec::<bool>::new());
    assert_eq!(KeepOldestStrategy.select(&files), Vec::<bool>::new());
    assert_eq!(KeepAllStrategy.select(&files), Vec::<bool>::new());
    assert_eq!(KeepNoneStrategy.select(&files), Vec::<bool>::new());
}

#[test]
fn strategies_on_a_single_file() {
    let files = group(&[None]);
    assert_eq!(KeepNewestStrategy.select(&files), vec![true]);
    assert_eq!(KeepOldestStrategy.select(&files), vec![true]);
}

#[test]
fn newest_and_oldest_mark_exactly_one_file() {
    let times: Vec<Option<Timestamp>> =
        (0..50i64).map(|i| if i % 7 == 0 { None } else { at((i * 37) % 11, (i % 3) as u32) }).collect();
    let files = group(&times);
    for strategy in [Strategy::Newest, Strategy::Oldest] {
        let selected = strategy.select(&files);
        assert_eq!(selected.len(), files.len());
        assert_eq!(selected.iter().filter(|&&keep| keep).count(), 1);
    }
    let newest = Strategy::Newest.select(&files).iter().position(|&keep| keep).unwrap();
    let oldest = Strategy::Oldest.select(&files).iter().position(|&keep| keep).unwrap();
    for (i, file) in files.iter().enumerate() {
        assert!(!is_earlier(&files[newest].modified_time, &file.modified_time));
        assert!(!is_earlier(&file.modified_time, &files[oldest].modified_time));
        if i < newest {
            assert!(is_earlier(&file.modified_time, &files[newest].modified_time));
        }
        if i < oldest {
            assert!(is_earlier(&files[oldest].modified_time, &file.modified_time));
        }
    }
}

#[test]
fn enum_dispatches_to_the_strategies() {
    let files = group(&[at(2, 0), at(1, 0), at(3, 0)]);
    assert_eq!(Strategy::Newest.select(&files), KeepNewestStrategy.select(&files));
    assert_eq!(Strategy::Oldest.select(&files), KeepOldestStrategy.select(&files));
    assert_eq!(Strategy::KeepAll.select(&files), KeepAllStrategy.select(&files));
    assert_eq!(Strategy::KeepNone.select(&files), KeepNoneStrategy.select(&files));
}

#[test]
fn strategy_can_be_used_through_the_trait() {
    let files = group(&[at(2, 0), at(1, 0)]);
    let strategies: Vec<Box<dyn SelectionStrategy>> = vec![
        Box::new(KeepNewestStrategy),
        Box::new(KeepOldestStrategy),
        Box::new(KeepAllStrategy),
        Box::new(KeepNoneStrategy),
    ];
    let selected: Vec<Vec<bool>> = strategies.iter().map(|s| s.select(&files)).collect();
    assert_eq!(
        selected,
        vec![vec![true, false], vec![false, true], vec![true, true], vec![false, false]]
    );
}
