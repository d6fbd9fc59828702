use minishell::completion::{longest_common_prefix, matching_names, Completion};
use minishell::path::{first_existing, path_candidates};

fn strings(v: &[&str]) -> Vec<String> {
    v.iter().map(|s| s.to_string()).collect()
}

#[test]
fn matching_names_merges_builtins_and_entries() {
    let names = matching_names("ec", &strings(&["echo2", "zzz"]));
    assert_eq!(names, strings(&["echo", "echo2"]));
}

#[test]
fn matching_names_deduplicates() {
    let names = matching_names("echo", &strings(&["echo", "echo"]));
    assert_eq!(names, strings(&["echo"]));
}

#[test]
fn matching_names_sorts() {
    let names = matching_names("", &strings(&["zz", "aa"]));
    assert_eq!(names, strings(&["aa", "cd", "echo", "exit", "pwd", "type", "zz"]));
}

#[test]
fn matching_names_empty_when_nothing_matches() {
    let names = matching_names("qqq", &strings(&["zz"]));
    assert!(names.is_empty());
}

#[test]
fn lcp_of_first_and_last() {
    assert_eq!(longest_common_prefix(&strings(&["echo", "echo2"])), "echo");
    assert_eq!(longest_common_prefix(&strings(&["car", "cart", "cat"])), "ca");
    assert_eq!(longest_common_prefix(&strings(&["abc"])), "abc");
    assert_eq!(longest_common_prefix(&strings(&["ab", "cd"])), "");
    assert_eq!(longest_common_prefix(&strings(&[])), "");
}

#[test]
fn completion_keeps_prefix_and_matches() {
    let c = Completion::new("ec".to_string(), strings(&["echo"]));
    assert_eq!(c.prefix_str(), "ec");
    assert_eq!(c.match_list(), &strings(&["echo"]));
}

#[test]
fn path_candidates_joins_directories() {
    let cands = path_candidates("/bin:/usr/bin", "ls");
    assert_eq!(cands, strings(&["/bin/ls", "/usr/bin/ls"]));
}

#[test]
fn path_candidates_handles_empty_and_trailing_slash() {
    let cands = path_candidates(":/bin/", "ls");
    assert_eq!(cands, strings(&["ls", "/bin/ls"]));
    assert_eq!(path_candidates("", "ls").len(), 0);
}

#[test]
fn first_existing_picks_first_flagged() {
    let cands = strings(&["/a/x", "/b/x", "/c/x"]);
    assert_eq!(first_existing(&cands, &vec![false, true, true]), Some("/b/x".to_string()));
    assert_eq!(first_existing(&cands, &vec![false, false, false]), None);
}

#[test]
fn find_on_path_is_idempotent() {
    let cands = path_candidates("/bin:/usr/bin", "ls");
    let flags = vec![false, true];
    let r1 = first_existing(&cands, &flags);
    let r2 = first_existing(&cands, &flags);
    assert_eq!(r1, r2);
    assert_eq!(r1, Some("/usr/bin/ls".to_string()));
}
