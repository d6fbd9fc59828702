use minishell::builtins::{cd_error_message, not_found_message};
use minishell::command::{Builtin, Command};
use minishell::history::History;
use minishell::numbers::parse_i32;

fn command_of(words: &[&str]) -> Command {
    let mut c = Command::new();
    for w in words {
        c.push_arg(w);
    }
    c
}

#[test]
fn lookup_is_case_insensitive() {
    assert_eq!(Builtin::lookup("echo"), Some(Builtin::Echo));
    assert_eq!(Builtin::lookup("ECHO"), Some(Builtin::Echo));
    assert_eq!(Builtin::lookup("EcHo"), Some(Builtin::Echo));
    assert_eq!(Builtin::lookup("Cd"), Some(Builtin::Cd));
    assert_eq!(Builtin::lookup("EXIT"), Some(Builtin::Exit));
    assert_eq!(Builtin::lookup("pWd"), Some(Builtin::Pwd));
    assert_eq!(Builtin::lookup("TYPE"), Some(Builtin::Type));
    assert_eq!(Builtin::lookup("echoo"), None);
    assert_eq!(Builtin::lookup("ech"), None);
    assert_eq!(Builtin::lookup(""), None);
}

#[test]
fn builtin_names_are_lowercase() {
    assert_eq!(Builtin::Echo.name(), "echo");
    assert_eq!(Builtin::Cd.name(), "cd");
    let all = Builtin::all();
    assert_eq!(all.len(), 5);
}

#[test]
fn command_is_builtin() {
    assert!(command_of(&["PWD"]).is_builtin());
    assert!(!command_of(&["ls"]).is_builtin());
    assert!(command_of(&["echo", "x"]).is_builtin());
}

#[test]
fn command_is_empty_until_named() {
    let mut c = Command::new();
    assert!(c.is_empty());
    c.push_arg("ls");
    assert!(!c.is_empty());
}

#[test]
fn echo_joins_args_with_spaces() {
    assert_eq!(command_of(&["echo", "A"]).echo_output(), "A");
    assert_eq!(command_of(&["echo", "a", "b", "c"]).echo_output(), "a b c");
    assert_eq!(command_of(&["echo"]).echo_output(), "");
    assert_eq!(command_of(&["echo", "a  b"]).echo_output(), "a  b");
}

#[test]
fn type_reports_builtin() {
    let c = command_of(&["type", "echo"]);
    assert_eq!(c.handle_type(&None), Some("echo is a shell builtin".to_string()));
}

#[test]
fn type_reports_found_path() {
    let c = command_of(&["type", "ls"]);
    let found = Some("/bin/ls".to_string());
    assert_eq!(c.handle_type(&found), Some("ls is /bin/ls".to_string()));
}

#[test]
fn type_reports_not_found() {
    let c = command_of(&["type", "nonexistent_xyz"]);
    assert_eq!(c.handle_type(&None), Some("nonexistent_xyz: not found".to_string()));
}

#[test]
fn type_without_argument_prints_nothing() {
    let c = command_of(&["type"]);
    assert_eq!(c.handle_type(&None), None);
}

#[test]
fn cd_target_resolution() {
    let home = Some("/home/u".to_string());
    assert_eq!(command_of(&["cd"]).cd_target(&home), "/home/u");
    assert_eq!(command_of(&["cd", "~"]).cd_target(&home), "/home/u");
    assert_eq!(command_of(&["cd", "/tmp"]).cd_target(&home), "/tmp");
    assert_eq!(command_of(&["cd", "sub/dir"]).cd_target(&home), "sub/dir");
    assert_eq!(command_of(&["cd"]).cd_target(&None), "");
}

#[test]
fn cd_error_is_formatted() {
    assert_eq!(
        cd_error_message("/does/not/exist"),
        "cd: /does/not/exist: No such file or directory"
    );
}

#[test]
fn not_found_is_formatted() {
    assert_eq!(not_found_message("frobnicate"), "frobnicate: command not found");
}

#[test]
fn exit_status_parses_or_defaults() {
    assert_eq!(command_of(&["exit", "3"]).exit_status(), 3);
    assert_eq!(command_of(&["exit", "abc"]).exit_status(), 0);
    assert_eq!(command_of(&["exit"]).exit_status(), 0);
    assert_eq!(command_of(&["exit", "-5"]).exit_status(), -5);
    assert_eq!(command_of(&["exit", "+7"]).exit_status(), 7);
}

#[test]
fn parse_i32_bounds() {
    assert_eq!(parse_i32("2147483647"), Some(2147483647));
    assert_eq!(parse_i32("-2147483648"), Some(-2147483648));
    assert_eq!(parse_i32("2147483648"), None);
    assert_eq!(parse_i32("-2147483649"), None);
    assert_eq!(parse_i32("99999999999999999999"), None);
    assert_eq!(parse_i32(""), None);
    assert_eq!(parse_i32("-"), None);
    assert_eq!(parse_i32("+"), None);
    assert_eq!(parse_i32("12x"), None);
    assert_eq!(parse_i32("0"), Some(0));
    assert_eq!(parse_i32("-0"), Some(0));
}

#[test]
fn history_skips_empty_and_duplicates() {
    let mut h = History::new();
    h.add("a".to_string());
    h.add("".to_string());
    h.add("a".to_string());
    h.add("b".to_string());
    h.add("a".to_string());
    assert_eq!(h.len(), 3);
    assert_eq!(h.get(0), Some("a".to_string()));
    assert_eq!(h.get(1), Some("b".to_string()));
    assert_eq!(h.get(2), Some("a".to_string()));
    assert_eq!(h.get(3), None);
}

#[test]
fn history_set_and_clear() {
    let mut h = History::new();
    h.add("a".to_string());
    h.add("b".to_string());
    h.set(0, "z".to_string());
    assert_eq!(h.get(0), Some("z".to_string()));
    h.set(9, "w".to_string());
    assert_eq!(h.len(), 2);
    h.clear();
    assert_eq!(h.len(), 0);
}

#[test]
fn history_print_numbers_lines() {
    let mut h = History::new();
    h.add("first".to_string());
    h.add("second".to_string());
    assert_eq!(h.print(None), "    1 first\n    2 second\n");
    assert_eq!(h.print(Some(1)), "    2 second\n");
    assert_eq!(h.print(Some(0)), "");
    assert_eq!(h.print(Some(99)), "    1 first\n    2 second\n");
}

#[test]
fn history_print_wide_numbers_are_not_padded() {
    let mut h = History::new();
    let mut entries = Vec::new();
    for i in 0..123456 {
        entries.push(format!("c{}", i));
    }
    h.append_entries(entries);
    assert_eq!(h.print(Some(1)), "123456 c123455\n");
    assert_eq!(h.print(Some(2)), "123455 c123454\n123456 c123455\n");
}

#[test]
fn history_append_entries_keeps_everything() {
    let mut h = History::new();
    h.append_entries(vec!["x".to_string(), "x".to_string(), "".to_string()]);
    assert_eq!(h.len(), 3);
}
