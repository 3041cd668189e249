use newsmaw::normalize_whitespace;

#[test]
fn collapses_whitespace_runs_to_nothing() {
    assert_eq!(normalize_whitespace("a\n\nb\t\tc"), "abc");
}

#[test]
fn keeps_an_isolated_space() {
    assert_eq!(normalize_whitespace("a b"), "a b");
}

#[test]
fn removes_a_run_of_two_spaces() {
    assert_eq!(normalize_whitespace("a  b"), "ab");
}

#[test]
fn removes_single_newline_carriage_return_and_tab() {
    assert_eq!(normalize_whitespace("a\nb"), "ab");
    assert_eq!(normalize_whitespace("a\rb"), "ab");
    assert_eq!(normalize_whitespace("a\tb"), "ab");
}

#[test]
fn removes_backslashes() {
    assert_eq!(normalize_whitespace("a\\b\\"), "ab");
}

#[test]
fn empty_input_stays_empty() {
    assert_eq!(normalize_whitespace(""), "");
}

#[test]
fn normalizes_raw_timestamp_text() {
    assert_eq!(
        normalize_whitespace("2023-05-01T10:00:00\n+0000"),
        "2023-05-01T10:00:00+0000"
    );
}

#[test]
fn mixed_whitespace_run_vanishes_whole() {
    assert_eq!(normalize_whitespace("a \t\n b"), "ab");
}
