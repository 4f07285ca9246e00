use std::path::Path;

use dupefinder::classify::{is_critical, is_critical_file, is_hidden, same_text, CRITICAL_NAMES};

/// The name of the path itself and of each ancestor, nearest first.
fn names_of(path: &str) -> Vec<Option<String>> {
    Path::new(path)
        .ancestors()
        .map(|step| step.file_name().and_then(|name| name.to_str()).map(String::from))
        .collect()
}

#[test]
fn hidden_names_begin_with_a_dot() {
    assert!(is_hidden(Some(".git")));
    assert!(is_hidden(Some(".")));
    assert!(is_hidden(Some("..")));
    assert!(!is_hidden(Some("git")));
    assert!(!is_hidden(Some("a.b")));
    assert!(!is_hidden(Some("")));
}

#[test]
fn name_that_is_not_unicode_is_not_hidden() {
    assert!(!is_hidden(None));
}

#[test]
fn same_text_compares_whole_strings() {
    assert!(same_text("", ""));
    assert!(same_text(".ssh", ".ssh"));
    assert!(!same_text(".ssh", ".ssh2"));
    assert!(!same_text(".ssh", ".ssH"));
    assert!(same_text("naïve", "naïve"));
    assert!(!same_text("naive", "naïve"));
}

#[test]
fn listed_names_are_critical() {
    for name in CRITICAL_NAMES {
        assert!(is_critical(name), "{}", name);
    }
    assert_eq!(CRITICAL_NAMES.len(), 95);
}

#[test]
fn other_names_are_not_critical() {
    assert!(!is_critical("config"));
    assert!(!is_critical("ssh"));
    assert!(!is_critical(".SSH"));
    assert!(!is_critical(".bashrc.bak"));
    assert!(!is_critical(""));
}

#[test]
fn file_with_a_critical_name_is_critical() {
    assert!(is_critical_file(&names_of("/home/user/.bashrc")));
    assert!(is_critical_file(&names_of(".gitconfig")));
}

#[test]
fn file_below_a_critical_directory_is_critical() {
    assert!(is_critical_file(&names_of("~/.ssh/config")));
    assert!(is_critical_file(&names_of("/home/user/.config/app/deep/settings.json")));
    assert!(is_critical_file(&names_of(".cargo/registry/index")));
}

#[test]
fn file_elsewhere_is_not_critical() {
    assert!(!is_critical_file(&names_of("/home/user/documents/report.txt")));
    assert!(!is_critical_file(&names_of("backup/ssh/config")));
    assert!(!is_critical_file(&names_of("plain")));
}

#[test]
fn path_without_any_name_is_not_critical() {
    assert!(!is_critical_file(&names_of("")));
    assert!(!is_critical_file(&names_of("/")));
    assert!(!is_critical_file(&Vec::new()));
    assert!(!is_critical_file(&vec![None]));
    assert!(!is_critical_file(&vec![None, Some("ssh".to_string()), None]));
}

#[test]
fn path_without_a_name_of_its_own_goes_by_its_ancestors() {
    assert!(is_critical_file(&names_of(".ssh/..")));
    assert!(is_critical_file(&vec![None, Some(".ssh".to_string())]));
    assert!(is_critical_file(&vec![
        None,
        Some(".ssh".to_string()),
        Some("u".to_string()),
        Some("home".to_string()),
        None,
    ]));
    assert!(!is_critical_file(&vec![None, Some("u".to_string()), Some("home".to_string()), None]));
}

#[test]
fn ancestor_without_a_name_is_passed_over() {
    assert!(is_critical_file(&names_of(".ssh/../keys")));
    assert!(is_critical_file(&vec![Some("keys".to_string()), None, Some(".ssh".to_string())]));
    assert!(!is_critical_file(&vec![Some("keys".to_string()), None, Some("ssh".to_string())]));
}
