use vshell::history::{
    append_history_lines, history_listing, parse_usize, plan_history, render_history,
    usize_to_string, HistoryRequest,
};

fn entries(v: &[&str]) -> Vec<String> {
    v.iter().map(|s| s.to_string()).collect()
}

#[test]
fn listing_is_one_indexed_in_submission_order() {
    let h = entries(&["ls", "pwd", "ls -l"]);
    let lines = history_listing(&h, 3);
    assert_eq!(lines, vec!["    1  ls", "    2  pwd", "    3  ls -l"]);
}

#[test]
fn listing_last_n_keeps_absolute_indices() {
    let h = entries(&["ls", "pwd", "ls -l"]);
    let lines = history_listing(&h, 2);
    assert_eq!(lines, vec!["    2  pwd", "    3  ls -l"]);
    let lines = history_listing(&h, 10);
    assert_eq!(lines.len(), 3);
    let lines = history_listing(&h, 0);
    assert_eq!(lines, Vec::<String>::new());
}

#[test]
fn listing_index_wider_than_five_columns() {
    let h: Vec<String> = (0..100000).map(|_| "x".to_string()).collect();
    let lines = history_listing(&h, 1);
    assert_eq!(lines, vec!["100000  x"]);
}

#[test]
fn write_then_read_reconstructs_the_entries() {
    let h = entries(&["ls", "pwd", "ls -l"]);
    let contents = render_history(&h);
    assert_eq!(contents, "ls\npwd\nls -l\n");
    let mut fresh: Vec<String> = Vec::new();
    append_history_lines(&mut fresh, &contents);
    assert_eq!(fresh, h);
}

#[test]
fn reading_trims_and_skips_blank_lines() {
    let mut h: Vec<String> = vec!["old".to_string()];
    append_history_lines(&mut h, "  ls -l  \n\n   \npwd");
    assert_eq!(h, vec!["old", "ls -l", "pwd"]);
}

#[test]
fn numbers_format_in_decimal() {
    assert_eq!(usize_to_string(0), "0");
    assert_eq!(usize_to_string(7), "7");
    assert_eq!(usize_to_string(12345), "12345");
    assert_eq!(usize_to_string(1000000), "1000000");
}

#[test]
fn count_argument_parses_like_a_usize() {
    assert_eq!(parse_usize("0"), Some(0));
    assert_eq!(parse_usize("2"), Some(2));
    assert_eq!(parse_usize("+15"), Some(15));
    assert_eq!(parse_usize(""), None);
    assert_eq!(parse_usize("+"), None);
    assert_eq!(parse_usize("12a"), None);
    assert_eq!(parse_usize("-3"), None);
    assert_eq!(parse_usize("99999999999999999999999999"), None);
    assert_eq!(parse_usize("18446744073709551615"), Some(usize::MAX));
    assert_eq!(parse_usize("18446744073709551616"), None);
}

#[test]
fn history_arguments_classify() {
    match plan_history(&entries(&["-r", "f.txt"]), 3) {
        HistoryRequest::ReadFile(f) => assert_eq!(f, "f.txt"),
        _ => panic!("-r FILE must be a read request"),
    }
    assert!(matches!(plan_history(&entries(&["-r"]), 3), HistoryRequest::ReadMissingFile));
    match plan_history(&entries(&["-w", "f.txt"]), 3) {
        HistoryRequest::WriteFile(f) => assert_eq!(f, "f.txt"),
        _ => panic!("-w FILE must be a write request"),
    }
    assert!(matches!(plan_history(&entries(&["-w"]), 3), HistoryRequest::WriteMissingFile));
    assert!(matches!(plan_history(&entries(&["2"]), 3), HistoryRequest::List(2)));
    assert!(matches!(plan_history(&entries(&["junk"]), 3), HistoryRequest::List(3)));
    assert!(matches!(plan_history(&entries(&[]), 5), HistoryRequest::List(5)));
}
