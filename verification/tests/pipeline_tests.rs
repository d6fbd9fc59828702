use minishell::command::{Builtin, Sink};
use minishell::error::ShellError;
use minishell::lexer::{RedirectType, Token};
use minishell::pipeline::{Pipeline, Resolved};

#[test]
fn single_command_round_trip() {
    let p = Pipeline::from_input("echo 'a  b' \"c\\\"d\"").unwrap();
    let cs = p.commands();
    assert_eq!(cs.len(), 1);
    assert_eq!(cs[0].name(), "echo");
    assert_eq!(cs[0].args(), &vec!["a  b".to_string(), "c\"d".to_string()]);
    assert!(matches!(cs[0].output(), Sink::Standard));
    assert!(matches!(cs[0].err(), Sink::Standard));
}

#[test]
fn one_pipe_two_stages() {
    let p = Pipeline::from_input("echo A | cat").unwrap();
    let cs = p.commands();
    assert_eq!(cs.len(), 2);
    assert_eq!(cs[0].name(), "echo");
    assert_eq!(cs[0].args(), &vec!["A".to_string()]);
    assert_eq!(cs[1].name(), "cat");
    assert!(cs[1].args().is_empty());
}

#[test]
fn empty_stage_before_pipe_fails() {
    assert!(matches!(Pipeline::from_input("| cat"), Err(ShellError::EmptyCommand)));
    assert!(matches!(Pipeline::from_input("a | | b"), Err(ShellError::EmptyCommand)));
}

#[test]
fn trailing_pipe_fails() {
    assert!(matches!(Pipeline::from_input("echo a |"), Err(ShellError::EmptyCommand)));
    assert!(matches!(Pipeline::from_input("echo a |   "), Err(ShellError::EmptyCommand)));
}

#[test]
fn empty_input_builds_empty_pipeline() {
    let p = Pipeline::from_input("").unwrap();
    assert_eq!(p.commands().len(), 0);
    let p = Pipeline::from_input("   ").unwrap();
    assert_eq!(p.commands().len(), 0);
}

#[test]
fn redirect_sets_output_sink() {
    let p = Pipeline::from_input("echo hi > f").unwrap();
    let cs = p.commands();
    assert_eq!(cs.len(), 1);
    match cs[0].output() {
        Sink::File { path, append } => {
            assert_eq!(path, "f");
            assert!(!append);
        },
        _ => panic!("expected a file sink"),
    }
    assert!(matches!(cs[0].err(), Sink::Standard));
}

#[test]
fn redirect_append_sets_append_mode() {
    let p = Pipeline::from_input("echo hi >> f").unwrap();
    match p.commands()[0].output() {
        Sink::File { path, append } => {
            assert_eq!(path, "f");
            assert!(*append);
        },
        _ => panic!("expected a file sink"),
    }
}

#[test]
fn redirect_stderr_sets_error_sink() {
    let p = Pipeline::from_input("cmd 2> f").unwrap();
    let cs = p.commands();
    match cs[0].err() {
        Sink::File { path, append } => {
            assert_eq!(path, "f");
            assert!(!append);
        },
        _ => panic!("expected a file sink"),
    }
    assert!(matches!(cs[0].output(), Sink::Standard));
}

#[test]
fn later_redirect_replaces_earlier() {
    let p = Pipeline::from_input("echo hi > f1 > f2").unwrap();
    match p.commands()[0].output() {
        Sink::File { path, .. } => assert_eq!(path, "f2"),
        _ => panic!("expected a file sink"),
    }
}

#[test]
fn plan_wires_builtin_into_pipe() {
    let p = Pipeline::from_input("echo A | cat").unwrap();
    let plan = p.plan();
    assert_eq!(plan.len(), 2);
    assert_eq!(plan[0].resolved, Resolved::Builtin(Builtin::Echo));
    assert!(!plan[0].reads_pipe);
    assert!(plan[0].writes_pipe);
    assert_eq!(plan[1].resolved, Resolved::External);
    assert!(plan[1].reads_pipe);
    assert!(!plan[1].writes_pipe);
}

#[test]
fn plan_single_stage_uses_no_pipes() {
    let p = Pipeline::from_input("ls -l").unwrap();
    let plan = p.plan();
    assert_eq!(plan.len(), 1);
    assert_eq!(plan[0].resolved, Resolved::External);
    assert!(!plan[0].reads_pipe);
    assert!(!plan[0].writes_pipe);
}

#[test]
fn plan_three_stages() {
    let p = Pipeline::from_input("a | b | c").unwrap();
    let plan = p.plan();
    assert_eq!(plan.len(), 3);
    assert!(!plan[0].reads_pipe && plan[0].writes_pipe);
    assert!(plan[1].reads_pipe && plan[1].writes_pipe);
    assert!(plan[2].reads_pipe && !plan[2].writes_pipe);
}

#[test]
fn from_tokens_redirect_both_sets_both_sinks() {
    let tokens = vec![
        Token::Arg("cmd".to_string()),
        Token::Redirect { type_: RedirectType::Both, path: "log".to_string(), append: true },
    ];
    let p = Pipeline::from_tokens(tokens).unwrap();
    let cs = p.commands();
    assert_eq!(cs.len(), 1);
    match (cs[0].output(), cs[0].err()) {
        (
            Sink::File { path: p1, append: a1 },
            Sink::File { path: p2, append: a2 },
        ) => {
            assert_eq!(p1, "log");
            assert_eq!(p2, "log");
            assert!(*a1 && *a2);
        },
        _ => panic!("expected two file sinks"),
    }
}

#[test]
fn from_tokens_redirect_only_stage_is_left_out() {
    let tokens = vec![
        Token::Arg("a".to_string()),
        Token::Pipe,
        Token::Redirect { type_: RedirectType::Stdout, path: "f".to_string(), append: false },
    ];
    let p = Pipeline::from_tokens(tokens).unwrap();
    assert_eq!(p.commands().len(), 1);
    assert_eq!(p.commands()[0].name(), "a");
}

#[test]
fn error_messages() {
    assert_eq!(ShellError::EmptyCommand.message(), "Empty command before pipe");
    assert_eq!(ShellError::UnterminatedQuote('\'').message(), "Unterminated quote");
}
