use minishell::error::ShellError;
use minishell::lexer::{continue_quoted, tokenize, RedirectType, Token};

fn args_of(tokens: &[Token]) -> Vec<String> {
    let mut out = Vec::new();
    for t in tokens {
        if let Token::Arg(a) = t {
            out.push(a.clone());
        }
    }
    out
}

#[test]
fn splits_on_whitespace() {
    let tokens = tokenize("ls -l   foo").unwrap();
    assert_eq!(tokens.len(), 3);
    assert_eq!(args_of(&tokens), vec!["ls", "-l", "foo"]);
}

#[test]
fn quote_escape_round_trip() {
    let tokens = tokenize("echo 'a  b' \"c\\\"d\"").unwrap();
    assert_eq!(args_of(&tokens), vec!["echo", "a  b", "c\"d"]);
}

#[test]
fn single_quotes_are_literal() {
    let tokens = tokenize("echo 'a\\nb'").unwrap();
    assert_eq!(args_of(&tokens), vec!["echo", "a\\nb"]);
}

#[test]
fn double_quotes_escape_only_a_few() {
    // \$ and \\ are escapes; \x keeps the backslash.
    let tokens = tokenize("echo \"\\$\\\\ \\x\"").unwrap();
    assert_eq!(args_of(&tokens), vec!["echo", "$\\ \\x"]);
}

#[test]
fn backslash_escapes_next_character() {
    let tokens = tokenize("a\\ b \\| \\>").unwrap();
    assert_eq!(args_of(&tokens), vec!["a b", "|", ">"]);
}

#[test]
fn pipe_token_between_args() {
    let tokens = tokenize("a|b").unwrap();
    assert_eq!(tokens.len(), 3);
    assert!(matches!(tokens[0], Token::Arg(_)));
    assert!(matches!(tokens[1], Token::Pipe));
    assert!(matches!(tokens[2], Token::Arg(_)));
}

#[test]
fn redirect_truncate_stdout() {
    let tokens = tokenize("echo hi > f").unwrap();
    assert_eq!(tokens.len(), 3);
    match &tokens[2] {
        Token::Redirect { type_, path, append } => {
            assert_eq!(*type_, RedirectType::Stdout);
            assert_eq!(path, "f");
            assert!(!append);
        },
        _ => panic!("expected a redirect token"),
    }
}

#[test]
fn redirect_append_stdout() {
    let tokens = tokenize("echo hi >> f").unwrap();
    match &tokens[2] {
        Token::Redirect { type_, path, append } => {
            assert_eq!(*type_, RedirectType::Stdout);
            assert_eq!(path, "f");
            assert!(*append);
        },
        _ => panic!("expected a redirect token"),
    }
}

#[test]
fn redirect_stderr() {
    let tokens = tokenize("cmd 2> err.txt").unwrap();
    assert_eq!(tokens.len(), 2);
    match &tokens[1] {
        Token::Redirect { type_, path, append } => {
            assert_eq!(*type_, RedirectType::Stderr);
            assert_eq!(path, "err.txt");
            assert!(!append);
        },
        _ => panic!("expected a redirect token"),
    }
}

#[test]
fn redirect_fd_digit_is_not_an_argument() {
    // `echo 1>file` redirects stdout; the `1` is not echoed.
    let tokens = tokenize("echo 1>file").unwrap();
    assert_eq!(args_of(&tokens), vec!["echo"]);
    match &tokens[1] {
        Token::Redirect { type_, path, append } => {
            assert_eq!(*type_, RedirectType::Stdout);
            assert_eq!(path, "file");
            assert!(!append);
        },
        _ => panic!("expected a redirect token"),
    }
}

#[test]
fn redirect_stderr_append() {
    let tokens = tokenize("cmd 2>> log").unwrap();
    match &tokens[1] {
        Token::Redirect { type_, path, append } => {
            assert_eq!(*type_, RedirectType::Stderr);
            assert_eq!(path, "log");
            assert!(*append);
        },
        _ => panic!("expected a redirect token"),
    }
}

#[test]
fn redirect_quoted_path() {
    let tokens = tokenize("echo x > 'my file'").unwrap();
    match &tokens[2] {
        Token::Redirect { path, .. } => assert_eq!(path, "my file"),
        _ => panic!("expected a redirect token"),
    }
}

#[test]
fn unterminated_single_quote_asks_for_more() {
    assert!(matches!(tokenize("echo 'abc"), Err(ShellError::UnterminatedQuote('\''))));
}

#[test]
fn unterminated_double_quote_asks_for_more() {
    assert!(matches!(tokenize("echo \"abc"), Err(ShellError::UnterminatedQuote('"'))));
}

#[test]
fn continue_quoted_single_closes() {
    let (text, closed) = continue_quoted("abc' ignored", '\'');
    assert_eq!(text, "abc");
    assert!(closed);
}

#[test]
fn continue_quoted_stays_open() {
    let (text, closed) = continue_quoted("abc", '"');
    assert_eq!(text, "abc");
    assert!(!closed);
}

#[test]
fn continue_quoted_double_handles_escapes() {
    let (text, closed) = continue_quoted("a\\\"b\" tail", '"');
    assert_eq!(text, "a\"b");
    assert!(closed);
}
