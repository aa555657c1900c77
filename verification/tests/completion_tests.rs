use vshell::completion::{find_completions, get_longest_common_prefix};

fn names(v: &[&str]) -> Vec<String> {
    v.iter().map(|s| s.to_string()).collect()
}

#[test]
fn prefix_e_matches_echo_and_exit() {
    let cands = find_completions("e", &Vec::new());
    assert_eq!(cands, vec!["echo", "exit"]);
    let lcp = get_longest_common_prefix(cands.as_slice());
    assert_eq!(lcp, "e");
}

#[test]
fn prefix_ec_matches_only_echo() {
    let cands = find_completions("ec", &Vec::new());
    assert_eq!(cands, vec!["echo"]);
}

#[test]
fn empty_prefix_lists_all_builtins_sorted() {
    let cands = find_completions("", &Vec::new());
    assert_eq!(cands, vec!["cd", "echo", "exit", "history", "pwd", "type"]);
}

#[test]
fn path_names_merge_sorted_and_deduplicated() {
    let path = names(&["zzz", "echo", "ed", "grep", "echo"]);
    let cands = find_completions("e", &path);
    assert_eq!(cands, vec!["echo", "ed", "exit"]);
}

#[test]
fn no_candidates_for_unmatched_prefix() {
    let cands = find_completions("zebra", &names(&["zoo"]));
    assert_eq!(cands, Vec::<String>::new());
}

#[test]
fn lcp_is_a_prefix_of_every_candidate() {
    let cands = names(&["interspecies", "interstellar", "interstate"]);
    let lcp = get_longest_common_prefix(cands.as_slice());
    assert_eq!(lcp, "inters");
    for c in &cands {
        assert!(c.starts_with(&lcp));
    }
    // and no longer string is a common prefix: extending by each
    // candidate's next character fails on some other candidate
    for c in &cands {
        let longer: String = c.chars().take(lcp.chars().count() + 1).collect();
        assert!(cands.iter().any(|s| !s.starts_with(&longer)));
    }
}

#[test]
fn lcp_of_empty_set_is_empty() {
    assert_eq!(get_longest_common_prefix(&[]), "");
}

#[test]
fn lcp_of_disjoint_strings_is_empty() {
    let cands = names(&["abc", "xyz"]);
    assert_eq!(get_longest_common_prefix(cands.as_slice()), "");
}

#[test]
fn lcp_of_single_string_is_itself() {
    let cands = names(&["whole"]);
    assert_eq!(get_longest_common_prefix(cands.as_slice()), "whole");
}
