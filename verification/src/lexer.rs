//! The lexer: turns one line of input into a flat sequence of tokens —
//! argument fragments, pipe separators, and redirection directives.
//!
//! The rules, applied one character of lookahead at a time, outside quotes:
//! whitespace separates arguments; `'...'` is a literal span; `"..."` is a
//! span where a backslash escapes only `` $ ` " \ `` and newline; a bare
//! backslash escapes exactly the next character; `|` separates pipeline
//! stages; `>` begins a redirection directive (`>>` appends), whose target
//! path is the following contiguous non-whitespace run, read with the same
//! quoting rules. A fragment that is exactly `1` or `2` immediately before
//! `>` selects the stream to redirect instead of becoming an argument.
//!
//! The whole lexer is specified as a character-by-character state machine
//! (`lex_step` folded over the input by `lex_fold`, finished by `lex_spec`),
//! and `tokenize` is proved to return exactly `lex_spec` of its input.

use vstd::prelude::*;

use crate::chars::{chars_of, string_from_chars};
use crate::error::ShellError;

verus! {

/// Which output stream a redirection directive replaces.
#[derive(Clone, Copy, PartialEq, Eq, Structural, Debug)]
pub enum RedirectType {
    Stdout,
    Stderr,
    Both,
}

/// One lexical unit of an input line.
#[derive(Debug)]
pub enum Token {
    /// A fully unescaped, unquoted argument fragment.
    Arg(String),
    /// The `|` stage separator.
    Pipe,
    /// A `>`/`>>` directive: which stream, the target path, append or truncate.
    Redirect { type_: RedirectType, path: String, append: bool },
}

/// The mathematical value of a `Token`: the same shape over `Seq<char>`.
#[verifier::ext_equal]
pub enum SpecToken {
    Arg(Seq<char>),
    Pipe,
    Redirect { type_: RedirectType, path: Seq<char>, append: bool },
}

impl View for Token {
    type V = SpecToken;

    open spec fn view(&self) -> SpecToken {
        match self {
            Token::Arg(s) => SpecToken::Arg(s@),
            Token::Pipe => SpecToken::Pipe,
            Token::Redirect { type_, path, append } => SpecToken::Redirect {
                type_: *type_,
                path: path@,
                append: *append,
            },
        }
    }
}

/// The views of a sequence of tokens.
pub open spec fn views(ts: Seq<Token>) -> Seq<SpecToken> {
    ts.map_values(|t: Token| t@)
}

/// Where in the input the state machine stands.
#[derive(Clone, Copy, PartialEq, Eq, Structural, Debug)]
pub enum Mode {
    /// Outside any quote, accumulating an argument fragment.
    Normal,
    /// A backslash outside quotes: the next character is literal.
    Escaped,
    /// Inside `'...'`.
    Single,
    /// Inside `"..."`.
    Double,
    /// A backslash inside `"..."`.
    DoubleEscaped,
    /// Just consumed `>`; a second `>` selects append mode.
    RedirOp { target: RedirectType },
    /// Skipping whitespace between the operator and the target path.
    RedirGap { target: RedirectType, append: bool },
    /// Accumulating the target path.
    RedirPath { target: RedirectType, append: bool },
    /// Inside `'...'` within a target path.
    RedirSingle { target: RedirectType, append: bool },
    /// Inside `"..."` within a target path.
    RedirDouble { target: RedirectType, append: bool },
    /// A backslash inside `"..."` within a target path.
    RedirDoubleEscaped { target: RedirectType, append: bool },
    /// A backslash outside quotes within a target path.
    RedirEscaped { target: RedirectType, append: bool },
}

/// The full state of the lexer: tokens already emitted, the fragment under
/// construction (an argument or a redirection path), and the mode.
#[verifier::ext_equal]
pub struct LexState {
    pub tokens: Seq<SpecToken>,
    pub cur: Seq<char>,
    pub mode: Mode,
}

/// Whitespace separates argument fragments outside quotes.
pub open spec fn is_space(c: char) -> bool {
    c == ' ' || c == '\t' || c == '\n' || c == '\r'
}

/// The characters a backslash escapes inside double quotes.
pub open spec fn dq_escapable(c: char) -> bool {
    c == '$' || c == '`' || c == '"' || c == '\\' || c == '\n'
}

/// The state the lexer starts in.
pub open spec fn lex_init() -> LexState {
    LexState { tokens: Seq::empty(), cur: Seq::empty(), mode: Mode::Normal }
}

/// Flush the fragment under construction as an argument, unless it is empty.
pub open spec fn flush_arg(st: LexState) -> LexState {
    if st.cur.len() > 0 {
        LexState { tokens: st.tokens.push(SpecToken::Arg(st.cur)), cur: Seq::empty(), ..st }
    } else {
        st
    }
}

/// A character read while looking for the start of a redirection target
/// path: whitespace is skipped, otherwise the path begins.
pub open spec fn gap_step(st: LexState, target: RedirectType, append: bool, c: char) -> LexState {
    if is_space(c) {
        LexState { mode: Mode::RedirGap { target, append }, ..st }
    } else if c == '\'' {
        LexState { mode: Mode::RedirSingle { target, append }, ..st }
    } else if c == '"' {
        LexState { mode: Mode::RedirDouble { target, append }, ..st }
    } else if c == '\\' {
        LexState { mode: Mode::RedirEscaped { target, append }, ..st }
    } else {
        LexState { cur: st.cur.push(c), mode: Mode::RedirPath { target, append }, ..st }
    }
}

/// One step of the lexer: consume character `c` in state `st`.
pub open spec fn lex_step(st: LexState, c: char) -> LexState {
    match st.mode {
        Mode::Normal => {
            if c == '\'' {
                LexState { mode: Mode::Single, ..st }
            } else if c == '"' {
                LexState { mode: Mode::Double, ..st }
            } else if c == '\\' {
                LexState { mode: Mode::Escaped, ..st }
            } else if c == '|' {
                let flushed = flush_arg(st);
                LexState { tokens: flushed.tokens.push(SpecToken::Pipe), ..flushed }
            } else if c == '>' {
                if st.cur == seq!['1'] {
                    LexState { cur: Seq::empty(), mode: Mode::RedirOp { target: RedirectType::Stdout }, ..st }
                } else if st.cur == seq!['2'] {
                    LexState { cur: Seq::empty(), mode: Mode::RedirOp { target: RedirectType::Stderr }, ..st }
                } else {
                    let flushed = flush_arg(st);
                    LexState { mode: Mode::RedirOp { target: RedirectType::Stdout }, ..flushed }
                }
            } else if is_space(c) {
                flush_arg(st)
            } else {
                LexState { cur: st.cur.push(c), ..st }
            }
        },
        Mode::Escaped => LexState { cur: st.cur.push(c), mode: Mode::Normal, ..st },
        Mode::Single => {
            if c == '\'' {
                LexState { mode: Mode::Normal, ..st }
            } else {
                LexState { cur: st.cur.push(c), ..st }
            }
        },
        Mode::Double => {
            if c == '"' {
                LexState { mode: Mode::Normal, ..st }
            } else if c == '\\' {
                LexState { mode: Mode::DoubleEscaped, ..st }
            } else {
                LexState { cur: st.cur.push(c), ..st }
            }
        },
        Mode::DoubleEscaped => {
            if dq_escapable(c) {
                LexState { cur: st.cur.push(c), mode: Mode::Double, ..st }
            } else {
                LexState { cur: st.cur.push('\\').push(c), mode: Mode::Double, ..st }
            }
        },
        Mode::RedirOp { target } => {
            if c == '>' {
                LexState { mode: Mode::RedirGap { target, append: true }, ..st }
            } else {
                gap_step(st, target, false, c)
            }
        },
        Mode::RedirGap { target, append } => gap_step(st, target, append, c),
        Mode::RedirPath { target, append } => {
            if is_space(c) {
                LexState {
                    tokens: st.tokens.push(SpecToken::Redirect { type_: target, path: st.cur, append }),
                    cur: Seq::empty(),
                    mode: Mode::Normal,
                }
            } else if c == '\'' {
                LexState { mode: Mode::RedirSingle { target, append }, ..st }
            } else if c == '"' {
                LexState { mode: Mode::RedirDouble { target, append }, ..st }
            } else if c == '\\' {
                LexState { mode: Mode::RedirEscaped { target, append }, ..st }
            } else {
                LexState { cur: st.cur.push(c), ..st }
            }
        },
        Mode::RedirSingle { target, append } => {
            if c == '\'' {
                LexState { mode: Mode::RedirPath { target, append }, ..st }
            } else {
                LexState { cur: st.cur.push(c), ..st }
            }
        },
        Mode::RedirDouble { target, append } => {
            if c == '"' {
                LexState { mode: Mode::RedirPath { target, append }, ..st }
            } else if c == '\\' {
                LexState { mode: Mode::RedirDoubleEscaped { target, append }, ..st }
            } else {
                LexState { cur: st.cur.push(c), ..st }
            }
        },
        Mode::RedirDoubleEscaped { target, append } => {
            if dq_escapable(c) {
                LexState { cur: st.cur.push(c), mode: Mode::RedirDouble { target, append }, ..st }
            } else {
                LexState { cur: st.cur.push('\\').push(c), mode: Mode::RedirDouble { target, append }, ..st }
            }
        },
        Mode::RedirEscaped { target, append } => {
            LexState { cur: st.cur.push(c), mode: Mode::RedirPath { target, append }, ..st }
        },
    }
}

/// The lexer state after consuming all of `s`, character by character.
pub open spec fn lex_fold(s: Seq<char>) -> LexState
    decreases s.len(),
{
    if s.len() == 0 {
        lex_init()
    } else {
        lex_step(lex_fold(s.drop_last()), s.last())
    }
}

/// If the input ends in this mode, which quote character is still open.
pub open spec fn unterminated_quote(m: Mode) -> Option<char> {
    match m {
        Mode::Single => Some('\''),
        Mode::RedirSingle { .. } => Some('\''),
        Mode::Double => Some('"'),
        Mode::DoubleEscaped => Some('"'),
        Mode::RedirDouble { .. } => Some('"'),
        Mode::RedirDoubleEscaped { .. } => Some('"'),
        _ => None,
    }
}

/// Wrap up at end of input: flush a pending argument, or emit a pending
/// redirection directive (with whatever path has accumulated, possibly
/// empty). A trailing backslash escapes nothing and is dropped.
pub open spec fn lex_finish(st: LexState) -> Seq<SpecToken> {
    match st.mode {
        Mode::Normal => flush_arg(st).tokens,
        Mode::Escaped => flush_arg(st).tokens,
        Mode::RedirOp { target } => st.tokens.push(
            SpecToken::Redirect { type_: target, path: st.cur, append: false },
        ),
        Mode::RedirGap { target, append } => st.tokens.push(
            SpecToken::Redirect { type_: target, path: st.cur, append },
        ),
        Mode::RedirPath { target, append } => st.tokens.push(
            SpecToken::Redirect { type_: target, path: st.cur, append },
        ),
        Mode::RedirEscaped { target, append } => st.tokens.push(
            SpecToken::Redirect { type_: target, path: st.cur, append },
        ),
        _ => st.tokens,
    }
}

/// What `tokenize` returns: the token sequence for `s`, or the quote
/// character left open at the end of the input.
pub open spec fn lex_spec(s: Seq<char>) -> Result<Seq<SpecToken>, char> {
    let st = lex_fold(s);
    match unterminated_quote(st.mode) {
        Some(q) => Err(q),
        None => Ok(lex_finish(st)),
    }
}

/// An input that uses no quoting, no escaping and no operator: every
/// character is either whitespace or an ordinary argument character.
pub open spec fn is_plain(s: Seq<char>) -> bool {
    forall|i: int|
        0 <= i < s.len() ==> !(#[trigger] s[i] == '\'' || s[i] == '"' || s[i] == '\\' || s[i]
            == '|' || s[i] == '>')
}

/// Folding whitespace splitting character by character: the words completed
/// so far and the one under construction.
pub open spec fn split_ws_fold(s: Seq<char>) -> (Seq<Seq<char>>, Seq<char>)
    decreases s.len(),
{
    if s.len() == 0 {
        (Seq::empty(), Seq::empty())
    } else {
        let st = split_ws_fold(s.drop_last());
        if is_space(s.last()) {
            if st.1.len() > 0 {
                (st.0.push(st.1), Seq::empty())
            } else {
                st
            }
        } else {
            (st.0, st.1.push(s.last()))
        }
    }
}

/// The whitespace-separated words of `s`, each non-empty; runs of
/// whitespace collapse.
pub open spec fn split_ws(s: Seq<char>) -> Seq<Seq<char>> {
    let st = split_ws_fold(s);
    if st.1.len() > 0 {
        st.0.push(st.1)
    } else {
        st.0
    }
}

/// On a plain input the lexer stays outside every quote and operator state
/// and gathers exactly the whitespace-separated words.
proof fn lemma_lex_fold_plain(s: Seq<char>)
    requires
        is_plain(s),
    ensures
        lex_fold(s).mode == Mode::Normal,
        lex_fold(s).tokens == split_ws_fold(s).0.map_values(|a: Seq<char>| SpecToken::Arg(a)),
        lex_fold(s).cur == split_ws_fold(s).1,
    decreases s.len(),
{
    if s.len() == 0 {
        assert(lex_fold(s).tokens =~= split_ws_fold(s).0.map_values(
            |a: Seq<char>| SpecToken::Arg(a),
        ));
    } else {
        assert(is_plain(s.drop_last()));
        lemma_lex_fold_plain(s.drop_last());
        let st = lex_fold(s.drop_last());
        let c = s.last();
        assert(s[s.len() - 1] == c);
        if is_space(c) && st.cur.len() > 0 {
            assert(split_ws_fold(s.drop_last()).0.push(st.cur).map_values(
                |a: Seq<char>| SpecToken::Arg(a),
            ) =~= split_ws_fold(s.drop_last()).0.map_values(|a: Seq<char>| SpecToken::Arg(a)).push(
                SpecToken::Arg(st.cur),
            ));
        }
    }
}

/// Tokenizing a plain input yields exactly one argument token per
/// whitespace-separated word, in order, and nothing else.
pub proof fn lemma_tokenize_plain(s: Seq<char>)
    requires
        is_plain(s),
    ensures
        lex_spec(s) == Ok::<_, char>(split_ws(s).map_values(|a: Seq<char>| SpecToken::Arg(a))),
{
    lemma_lex_fold_plain(s);
    let st = lex_fold(s);
    if st.cur.len() > 0 {
        assert(split_ws_fold(s).0.push(st.cur).map_values(|a: Seq<char>| SpecToken::Arg(a))
            =~= split_ws_fold(s).0.map_values(|a: Seq<char>| SpecToken::Arg(a)).push(
            SpecToken::Arg(st.cur),
        ));
    }
}

/// Every word of a whitespace split is non-empty.
pub proof fn lemma_split_ws_nonempty(s: Seq<char>)
    ensures
        forall|i: int| 0 <= i < split_ws(s).len() ==> #[trigger] split_ws(s)[i].len() > 0,
    decreases s.len(),
{
    lemma_split_ws_fold_nonempty(s);
}

proof fn lemma_split_ws_fold_nonempty(s: Seq<char>)
    ensures
        forall|i: int|
            0 <= i < split_ws_fold(s).0.len() ==> #[trigger] split_ws_fold(s).0[i].len() > 0,
    decreases s.len(),
{
    if s.len() > 0 {
        lemma_split_ws_fold_nonempty(s.drop_last());
        let st = split_ws_fold(s.drop_last());
        if is_space(s.last()) && st.1.len() > 0 {
            assert forall|i: int| 0 <= i < split_ws_fold(s).0.len() implies #[trigger] split_ws_fold(
                s,
            ).0[i].len() > 0 by {
                if i < st.0.len() {
                    assert(split_ws_fold(s).0[i] == st.0[i]);
                }
            }
        }
    }
}

/// The state of a resumed quoted span: the text gathered so far, whether the
/// closing quote has been seen, and whether a backslash is pending (double
/// quotes only).
#[verifier::ext_equal]
pub struct CqState {
    pub out: Seq<char>,
    pub closed: bool,
    pub esc: bool,
}

/// One step of resuming a quoted span: consume `c` inside a span opened by
/// `quote`. After the closing quote, remaining characters are ignored.
pub open spec fn cq_step(st: CqState, quote: char, c: char) -> CqState {
    if st.closed {
        st
    } else if quote == '\'' {
        if c == '\'' {
            CqState { closed: true, ..st }
        } else {
            CqState { out: st.out.push(c), ..st }
        }
    } else if st.esc {
        if dq_escapable(c) {
            CqState { out: st.out.push(c), esc: false, ..st }
        } else {
            CqState { out: st.out.push('\\').push(c), esc: false, ..st }
        }
    } else if c == '"' {
        CqState { closed: true, ..st }
    } else if c == '\\' {
        CqState { esc: true, ..st }
    } else {
        CqState { out: st.out.push(c), ..st }
    }
}

pub open spec fn cq_fold(s: Seq<char>, quote: char) -> CqState
    decreases s.len(),
{
    if s.len() == 0 {
        CqState { out: Seq::empty(), closed: false, esc: false }
    } else {
        cq_step(cq_fold(s.drop_last(), quote), quote, s.last())
    }
}

/// What `continue_quoted` returns: the unescaped text of the resumed span
/// and whether the closing quote was reached. A backslash left pending at
/// the end of the chunk is kept literally.
pub open spec fn cq_spec(s: Seq<char>, quote: char) -> (Seq<char>, bool) {
    let st = cq_fold(s, quote);
    (if st.esc { st.out.push('\\') } else { st.out }, st.closed)
}

proof fn lemma_cq_fold_snoc(s: Seq<char>, quote: char, i: int)
    requires
        0 <= i < s.len(),
    ensures
        cq_fold(s.take(i + 1), quote) == cq_step(cq_fold(s.take(i), quote), quote, s[i]),
{
    assert(s.take(i + 1).drop_last() =~= s.take(i));
    assert(s.take(i + 1).last() == s[i]);
}

/// Resume a quoted span that an earlier line left open: process `partial`
/// under the rules of the span opened by `quote`, returning the unescaped
/// text up to (and excluding) the closing quote, and whether the span
/// closed. Callable repeatedly, once per continuation line.
pub fn continue_quoted(partial: &str, quote: char) -> (r: (String, bool))
    requires
        quote == '\'' || quote == '"',
    ensures
        (r.0@, r.1) == cq_spec(partial@, quote),
{
    let v = chars_of(partial);
    let mut out: Vec<char> = Vec::new();
    let mut closed = false;
    let mut esc = false;
    let n = v.len();
    let mut i: usize = 0;
    proof {
        assert(v@.take(0) =~= Seq::<char>::empty());
        assert(CqState { out: out@, closed, esc } =~= cq_fold(v@.take(0), quote));
    }
    while i < n
        invariant
            n == v@.len(),
            i <= n,
            v@ == partial@,
            quote == '\'' || quote == '"',
            (CqState { out: out@, closed, esc }) == cq_fold(v@.take(i as int), quote),
        decreases n - i,
    {
        proof {
            lemma_cq_fold_snoc(v@, quote, i as int);
        }
        let c = v[i];
        if closed {
        } else if quote == '\'' {
            if c == '\'' {
                closed = true;
            } else {
                out.push(c);
            }
        } else if esc {
            if c == '$' || c == '`' || c == '"' || c == '\\' || c == '\n' {
                out.push(c);
            } else {
                out.push('\\');
                out.push(c);
            }
            esc = false;
        } else if c == '"' {
            closed = true;
        } else if c == '\\' {
            esc = true;
        } else {
            out.push(c);
        }
        proof {
            assert(CqState { out: out@, closed, esc } =~= cq_fold(v@.take(i + 1), quote));
        }
        i = i + 1;
    }
    proof {
        assert(v@.take(n as int) =~= partial@);
    }
    if esc {
        out.push('\\');
    }
    (string_from_chars(&out), closed)
}

proof fn lemma_views_push(ts: Seq<Token>, t: Token)
    ensures
        views(ts.push(t)) == views(ts).push(t@),
{
    assert(views(ts.push(t)) =~= views(ts).push(t@));
}

/// The lexer state as the executable code carries it.
struct Lexer {
    tokens: Vec<Token>,
    cur: Vec<char>,
    mode: Mode,
}

impl Lexer {
    spec fn view_state(&self) -> LexState {
        LexState { tokens: views(self.tokens@), cur: self.cur@, mode: self.mode }
    }

    fn new() -> (r: Lexer)
        ensures
            r.view_state() == lex_init(),
    {
        let r = Lexer { tokens: Vec::new(), cur: Vec::new(), mode: Mode::Normal };
        proof {
            assert(r.view_state() =~= lex_init());
        }
        r
    }

    /// Flush the fragment under construction as an argument, unless empty.
    fn flush(&mut self)
        ensures
            final(self).view_state() == flush_arg(old(self).view_state()),
            final(self).mode == old(self).mode,
    {
        if self.cur.len() > 0 {
            let arg = string_from_chars(&self.cur);
            let ghost before = self.tokens@;
            self.tokens.push(Token::Arg(arg));
            self.cur = Vec::new();
            proof {
                lemma_views_push(before, Token::Arg(arg));
                assert(final(self).view_state() =~= flush_arg(old(self).view_state()));
            }
        }
    }

    /// Emit the pending redirection directive with the accumulated path.
    fn emit_redirect(&mut self, target: RedirectType, append: bool)
        ensures
            views(final(self).tokens@) == views(old(self).tokens@).push(
                SpecToken::Redirect { type_: target, path: old(self).cur@, append },
            ),
            final(self).cur@ == Seq::<char>::empty(),
            final(self).mode == old(self).mode,
    {
        let path = string_from_chars(&self.cur);
        let ghost before = self.tokens@;
        let t = Token::Redirect { type_: target, path, append };
        self.tokens.push(t);
        self.cur = Vec::new();
        proof {
            lemma_views_push(before, t);
        }
    }

    /// A character read while looking for the start of a redirection path.
    fn step_gap(&mut self, target: RedirectType, append: bool, c: char)
        ensures
            final(self).view_state() == gap_step(old(self).view_state(), target, append, c),
    {
        if c == ' ' || c == '\t' || c == '\n' || c == '\r' {
            self.mode = Mode::RedirGap { target, append };
        } else if c == '\'' {
            self.mode = Mode::RedirSingle { target, append };
        } else if c == '"' {
            self.mode = Mode::RedirDouble { target, append };
        } else if c == '\\' {
            self.mode = Mode::RedirEscaped { target, append };
        } else {
            self.cur.push(c);
            self.mode = Mode::RedirPath { target, append };
        }
        proof {
            assert(final(self).view_state() =~= gap_step(old(self).view_state(), target, append, c));
        }
    }

    /// Consume one character: the executable mirror of `lex_step`.
    fn step(&mut self, c: char)
        ensures
            final(self).view_state() == lex_step(old(self).view_state(), c),
    {
        let mode = self.mode;
        match mode {
            Mode::Normal => {
                if c == '\'' {
                    self.mode = Mode::Single;
                } else if c == '"' {
                    self.mode = Mode::Double;
                } else if c == '\\' {
                    self.mode = Mode::Escaped;
                } else if c == '|' {
                    self.flush();
                    let ghost before = self.tokens@;
                    self.tokens.push(Token::Pipe);
                    proof {
                        lemma_views_push(before, Token::Pipe);
                    }
                } else if c == '>' {
                    if self.cur.len() == 1 && self.cur[0] == '1' {
                        proof {
                            assert(self.cur@ =~= seq!['1']);
                        }
                        self.cur = Vec::new();
                        self.mode = Mode::RedirOp { target: RedirectType::Stdout };
                    } else if self.cur.len() == 1 && self.cur[0] == '2' {
                        proof {
                            assert(self.cur@ =~= seq!['2']);
                        }
                        self.cur = Vec::new();
                        self.mode = Mode::RedirOp { target: RedirectType::Stderr };
                    } else {
                        proof {
                            assert(self.cur@ != seq!['1'] && self.cur@ != seq!['2']);
                        }
                        self.flush();
                        self.mode = Mode::RedirOp { target: RedirectType::Stdout };
                    }
                } else if c == ' ' || c == '\t' || c == '\n' || c == '\r' {
                    self.flush();
                } else {
                    self.cur.push(c);
                }
            },
            Mode::Escaped => {
                self.cur.push(c);
                self.mode = Mode::Normal;
            },
            Mode::Single => {
                if c == '\'' {
                    self.mode = Mode::Normal;
                } else {
                    self.cur.push(c);
                }
            },
            Mode::Double => {
                if c == '"' {
                    self.mode = Mode::Normal;
                } else if c == '\\' {
                    self.mode = Mode::DoubleEscaped;
                } else {
                    self.cur.push(c);
                }
            },
            Mode::DoubleEscaped => {
                if c == '$' || c == '`' || c == '"' || c == '\\' || c == '\n' {
                    self.cur.push(c);
                } else {
                    self.cur.push('\\');
                    self.cur.push(c);
                }
                self.mode = Mode::Double;
            },
            Mode::RedirOp { target } => {
                if c == '>' {
                    self.mode = Mode::RedirGap { target, append: true };
                } else {
                    self.step_gap(target, false, c);
                }
            },
            Mode::RedirGap { target, append } => {
                self.step_gap(target, append, c);
            },
            Mode::RedirPath { target, append } => {
                if c == ' ' || c == '\t' || c == '\n' || c == '\r' {
                    self.emit_redirect(target, append);
                    self.mode = Mode::Normal;
                } else if c == '\'' {
                    self.mode = Mode::RedirSingle { target, append };
                } else if c == '"' {
                    self.mode = Mode::RedirDouble { target, append };
                } else if c == '\\' {
                    self.mode = Mode::RedirEscaped { target, append };
                } else {
                    self.cur.push(c);
                }
            },
            Mode::RedirSingle { target, append } => {
                if c == '\'' {
                    self.mode = Mode::RedirPath { target, append };
                } else {
                    self.cur.push(c);
                }
            },
            Mode::RedirDouble { target, append } => {
                if c == '"' {
                    self.mode = Mode::RedirPath { target, append };
                } else if c == '\\' {
                    self.mode = Mode::RedirDoubleEscaped { target, append };
                } else {
                    self.cur.push(c);
                }
            },
            Mode::RedirDoubleEscaped { target, append } => {
                if c == '$' || c == '`' || c == '"' || c == '\\' || c == '\n' {
                    self.cur.push(c);
                } else {
                    self.cur.push('\\');
                    self.cur.push(c);
                }
                self.mode = Mode::RedirDouble { target, append };
            },
            Mode::RedirEscaped { target, append } => {
                self.cur.push(c);
                self.mode = Mode::RedirPath { target, append };
            },
        }
        proof {
            assert(final(self).view_state() =~= lex_step(old(self).view_state(), c));
        }
    }

}

/// Wrap up at end of input: the executable mirror of `lex_finish`.
fn lexer_finish(lx: Lexer) -> (r: Result<Vec<Token>, ShellError>)
    ensures
        match unterminated_quote(lx.mode) {
            Some(q) => r matches Err(e) && e == ShellError::UnterminatedQuote(q),
            None => r matches Ok(toks) && views(toks@) == lex_finish(lx.view_state()),
        },
{
    let Lexer { mut tokens, cur, mode } = lx;
    let ghost before = tokens@;
    match mode {
        Mode::Normal | Mode::Escaped => {
            if cur.len() > 0 {
                let t = Token::Arg(string_from_chars(&cur));
                tokens.push(t);
                proof {
                    lemma_views_push(before, t);
                }
            }
            Ok(tokens)
        },
        Mode::RedirOp { target } => {
            let t = Token::Redirect { type_: target, path: string_from_chars(&cur), append: false };
            tokens.push(t);
            proof {
                lemma_views_push(before, t);
            }
            Ok(tokens)
        },
        Mode::RedirGap { target, append } => {
            let t = Token::Redirect { type_: target, path: string_from_chars(&cur), append };
            tokens.push(t);
            proof {
                lemma_views_push(before, t);
            }
            Ok(tokens)
        },
        Mode::RedirPath { target, append } => {
            let t = Token::Redirect { type_: target, path: string_from_chars(&cur), append };
            tokens.push(t);
            proof {
                lemma_views_push(before, t);
            }
            Ok(tokens)
        },
        Mode::RedirEscaped { target, append } => {
            let t = Token::Redirect { type_: target, path: string_from_chars(&cur), append };
            tokens.push(t);
            proof {
                lemma_views_push(before, t);
            }
            Ok(tokens)
        },
        Mode::Single | Mode::RedirSingle { .. } => Err(ShellError::UnterminatedQuote('\'')),
        Mode::Double | Mode::DoubleEscaped | Mode::RedirDouble { .. }
            | Mode::RedirDoubleEscaped { .. } => Err(ShellError::UnterminatedQuote('"')),
    }
}

proof fn lemma_lex_fold_snoc(s: Seq<char>, i: int)
    requires
        0 <= i < s.len(),
    ensures
        lex_fold(s.take(i + 1)) == lex_step(lex_fold(s.take(i)), s[i]),
{
    assert(s.take(i + 1).drop_last() =~= s.take(i));
    assert(s.take(i + 1).last() == s[i]);
}

/// Turn one line of input into its tokens, or report the quote character
/// that is still open at the end of the input.
pub fn tokenize(input: &str) -> (r: Result<Vec<Token>, ShellError>)
    ensures
        match lex_spec(input@) {
            Ok(ts) => r matches Ok(toks) && views(toks@) == ts,
            Err(q) => r matches Err(e) && e == ShellError::UnterminatedQuote(q),
        },
{
    let v = chars_of(input);
    let mut lx = Lexer::new();
    let n = v.len();
    let mut i: usize = 0;
    proof {
        assert(v@.take(0) =~= Seq::<char>::empty());
    }
    while i < n
        invariant
            n == v@.len(),
            i <= n,
            v@ == input@,
            lx.view_state() == lex_fold(v@.take(i as int)),
        decreases n - i,
    {
        proof {
            lemma_lex_fold_snoc(v@, i as int);
        }
        lx.step(v[i]);
        i = i + 1;
    }
    proof {
        assert(v@.take(n as int) =~= input@);
    }
    lexer_finish(lx)
}

} // verus!
