use dupefinder::model::ScanError;
use dupefinder::text::{count_text, join, join_first};

fn words(parts: &[&str]) -> Vec<String> {
    parts.iter().map(|part| part.to_string()).collect()
}

#[test]
fn counts_are_written_in_decimal() {
    assert_eq!(count_text(0), "0");
    assert_eq!(count_text(7), "7");
    assert_eq!(count_text(9), "9");
    assert_eq!(count_text(10), "10");
    assert_eq!(count_text(101), "101");
    assert_eq!(count_text(12345), "12345");
    assert_eq!(count_text(9_876_543_210), "9876543210");
    assert_eq!(count_text(usize::MAX), usize::MAX.to_string());
}

#[test]
fn counts_agree_with_the_standard_form() {
    for n in (0..5000usize).chain([65535, 65536, 999_999, 1_000_000]) {
        assert_eq!(count_text(n), n.to_string());
    }
}

#[test]
fn join_puts_the_separator_between_parts() {
    assert_eq!(join(&words(&[]), ", "), "");
    assert_eq!(join(&words(&["a"]), ", "), "a");
    assert_eq!(join(&words(&["a", "b"]), ", "), "a, b");
    assert_eq!(join(&words(&["a", "", "c"]), "; "), "a; ; c");
    assert_eq!(join(&words(&["a", "b", "c"]), ""), "abc");
}

#[test]
fn join_first_stops_at_the_limit() {
    let parts = words(&["a", "b", "c", "d"]);
    assert_eq!(join_first(&parts, 0, ", "), "");
    assert_eq!(join_first(&parts, 1, ", "), "a");
    assert_eq!(join_first(&parts, 3, ", "), "a, b, c");
    assert_eq!(join_first(&parts, 4, ", "), "a, b, c, d");
    assert_eq!(join_first(&parts, 9, ", "), "a, b, c, d");
}

#[test]
fn errors_are_described_by_kind_and_reason() {
    assert_eq!(ScanError::IoError("disk full".to_string()).describe(), "IoError(\"disk full\")");
    assert_eq!(
        ScanError::TraversalError("no such directory".to_string()).describe(),
        "TraversalError(\"no such directory\")"
    );
    assert_eq!(
        ScanError::HashError("/a/b".to_string(), "denied".to_string()).describe(),
        "HashError(\"/a/b\", \"denied\")"
    );
    assert_eq!(ScanError::IoError(String::new()).describe(), "IoError(\"\")");
}

#[test]
fn plain_errors_are_described_as_they_are_printed() {
    let errors = [
        ScanError::IoError("disk full".to_string()),
        ScanError::TraversalError("IO error for operation on /x: not found (os error 2)".to_string()),
        ScanError::HashError("/a/b c".to_string(), "permission denied".to_string()),
    ];
    for error in errors {
        assert_eq!(error.describe(), format!("{:?}", error));
    }
}
