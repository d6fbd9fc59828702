//! The pipeline builder: groups the lexer's token stream into an ordered
//! sequence of commands, and computes the wiring plan that executing the
//! pipeline follows (which stages are builtins, which read from or write to
//! an inter-stage pipe). Creating the pipes, spawning the processes and
//! waiting on them is the surrounding application's job.

use vstd::prelude::*;

use crate::command::{
    empty_command, lookup_spec, push_arg_spec, Builtin, Command, Sink, SpecCommand, SpecSink,
};
use crate::error::ShellError;
use crate::lexer::{is_plain, lex_spec, split_ws, tokenize, views, RedirectType, SpecToken, Token};

verus! {

/// The views of a sequence of commands.
pub open spec fn cmd_views(cs: Seq<Command>) -> Seq<SpecCommand> {
    cs.map_values(|c: Command| c@)
}

/// What a redirection directive does to the command under construction:
/// replace the targeted destination (or, for `Both`, both of them) with the
/// named file.
pub open spec fn apply_redirect_spec(
    c: SpecCommand,
    type_: RedirectType,
    path: Seq<char>,
    append: bool,
) -> SpecCommand {
    match type_ {
        RedirectType::Stdout => SpecCommand { output: SpecSink::File { path, append }, ..c },
        RedirectType::Stderr => SpecCommand { err: SpecSink::File { path, append }, ..c },
        RedirectType::Both => SpecCommand {
            output: SpecSink::File { path, append },
            err: SpecSink::File { path, append },
            ..c
        },
    }
}

/// One step of the builder: the completed stages so far and the command
/// under construction, or `None` once a `|` has followed an empty command.
pub open spec fn build_step(
    st: Option<(Seq<SpecCommand>, SpecCommand)>,
    t: SpecToken,
) -> Option<(Seq<SpecCommand>, SpecCommand)> {
    match st {
        None => None,
        Some((stages, cur)) => match t {
            SpecToken::Arg(a) => Some((stages, push_arg_spec(cur, a))),
            SpecToken::Pipe => {
                if cur.name.len() == 0 {
                    None
                } else {
                    Some((stages.push(cur), empty_command()))
                }
            },
            SpecToken::Redirect { type_, path, append } => Some(
                (stages, apply_redirect_spec(cur, type_, path, append)),
            ),
        },
    }
}

pub open spec fn build_fold(ts: Seq<SpecToken>) -> Option<(Seq<SpecCommand>, SpecCommand)>
    decreases ts.len(),
{
    if ts.len() == 0 {
        Some((Seq::empty(), empty_command()))
    } else {
        build_step(build_fold(ts.drop_last()), ts.last())
    }
}

/// What `from_tokens` returns: the ordered stages, or `EmptyCommand` if a
/// `|` had no command before it or nothing followed the last `|`. A command
/// still under construction at the end is kept if it has a name; one without
/// a name (say, a lone redirection) is left out.
pub open spec fn build_spec(ts: Seq<SpecToken>) -> Result<Seq<SpecCommand>, ShellError> {
    match build_fold(ts) {
        None => Err(ShellError::EmptyCommand),
        Some((stages, cur)) => {
            if cur.name.len() > 0 {
                Ok(stages.push(cur))
            } else if ts.len() > 0 && ts.last() is Pipe {
                Err(ShellError::EmptyCommand)
            } else {
                Ok(stages)
            }
        },
    }
}

/// What `from_input` returns: the parse of one whole input line.
pub open spec fn parse_spec(s: Seq<char>) -> Result<Seq<SpecCommand>, ShellError> {
    match lex_spec(s) {
        Err(q) => Err(ShellError::UnterminatedQuote(q)),
        Ok(ts) => build_spec(ts),
    }
}

/// An ordered sequence of commands, built once per input line.
#[derive(Debug)]
pub struct Pipeline {
    commands: Vec<Command>,
}

impl View for Pipeline {
    type V = Seq<SpecCommand>;

    closed spec fn view(&self) -> Seq<SpecCommand> {
        cmd_views(self.commands@)
    }
}

proof fn lemma_cmd_views_push(cs: Seq<Command>, c: Command)
    ensures
        cmd_views(cs.push(c)) == cmd_views(cs).push(c@),
{
    assert(cmd_views(cs.push(c)) =~= cmd_views(cs).push(c@));
}

proof fn lemma_build_fold_snoc(ts: Seq<SpecToken>, i: int)
    requires
        0 <= i < ts.len(),
    ensures
        build_fold(ts.take(i + 1)) == build_step(build_fold(ts.take(i)), ts[i]),
{
    assert(ts.take(i + 1).drop_last() =~= ts.take(i));
    assert(ts.take(i + 1).last() == ts[i]);
}

proof fn lemma_build_fold_none(ts: Seq<SpecToken>, j: int)
    requires
        0 <= j <= ts.len(),
        build_fold(ts.take(j)) is None,
    ensures
        build_fold(ts) is None,
    decreases ts.len() - j,
{
    if j == ts.len() {
        assert(ts.take(j) =~= ts);
    } else {
        lemma_build_fold_snoc(ts, j);
        lemma_build_fold_none(ts, j + 1);
    }
}

impl Pipeline {
    pub fn new() -> (r: Pipeline)
        ensures
            r@ == Seq::<SpecCommand>::empty(),
    {
        let r = Pipeline { commands: Vec::new() };
        proof {
            assert(r@ =~= Seq::<SpecCommand>::empty());
        }
        r
    }

    /// Parse one whole input line: tokenize it and group the tokens.
    pub fn from_input(input: &str) -> (r: Result<Pipeline, ShellError>)
        ensures
            match parse_spec(input@) {
                Ok(cs) => r matches Ok(p) && p@ == cs,
                Err(e) => r matches Err(e2) && e2 == e,
            },
    {
        match tokenize(input) {
            Ok(tokens) => Self::from_tokens(tokens),
            Err(e) => Err(e),
        }
    }

    /// Group a token stream into an ordered sequence of commands.
    pub fn from_tokens(tokens: Vec<Token>) -> (r: Result<Pipeline, ShellError>)
        ensures
            match build_spec(views(tokens@)) {
                Ok(cs) => r matches Ok(p) && p@ == cs,
                Err(e) => r matches Err(e2) && e2 == e,
            },
    {
        let ghost ts = views(tokens@);
        let mut commands: Vec<Command> = Vec::new();
        let mut cmd = Command::new();
        let n = tokens.len();
        let mut i: usize = 0;
        proof {
            assert(ts.take(0) =~= Seq::<SpecToken>::empty());
            assert(cmd_views(commands@) =~= Seq::<SpecCommand>::empty());
        }
        while i < n
            invariant
                n == tokens@.len(),
                i <= n,
                ts == views(tokens@),
                build_fold(ts.take(i as int)) == Some((cmd_views(commands@), cmd@)),
            decreases n - i,
        {
            proof {
                lemma_build_fold_snoc(ts, i as int);
                assert(ts[i as int] == tokens@[i as int]@);
            }
            let ghost stages_before = cmd_views(commands@);
            match &tokens[i] {
                Token::Arg(a) => {
                    cmd.push_arg(a.as_str());
                },
                Token::Pipe => {
                    if cmd.is_empty() {
                        proof {
                            lemma_build_fold_none(ts, i + 1);
                        }
                        return Err(ShellError::EmptyCommand);
                    }
                    let done = cmd;
                    cmd = Command::new();
                    proof {
                        lemma_cmd_views_push(commands@, done);
                    }
                    commands.push(done);
                },
                Token::Redirect { type_, path, append } => {
                    match type_ {
                        RedirectType::Stdout => {
                            cmd.set_output(Sink::File { path: path.clone(), append: *append });
                        },
                        RedirectType::Stderr => {
                            cmd.set_err(Sink::File { path: path.clone(), append: *append });
                        },
                        RedirectType::Both => {
                            cmd.set_output(Sink::File { path: path.clone(), append: *append });
                            cmd.set_err(Sink::File { path: path.clone(), append: *append });
                        },
                    }
                },
            }
            i = i + 1;
        }
        proof {
            assert(ts.take(n as int) =~= ts);
        }
        if !cmd.is_empty() {
            proof {
                lemma_cmd_views_push(commands@, cmd);
            }
            commands.push(cmd);
            Ok(Pipeline { commands })
        } else if n > 0 && matches!(&tokens[n - 1], Token::Pipe) {
            proof {
                assert(ts.last() == tokens@[n - 1]@);
            }
            Err(ShellError::EmptyCommand)
        } else {
            Ok(Pipeline { commands })
        }
    }

    /// The stages, in order.
    pub fn commands(&self) -> (r: &Vec<Command>)
        ensures
            cmd_views(r@) == self@,
    {
        &self.commands
    }

    /// The wiring plan for executing this pipeline.
    pub fn plan(&self) -> (r: Vec<StagePlan>)
        ensures
            r@ == plan_spec(self@),
    {
        let n = self.commands.len();
        let mut r: Vec<StagePlan> = Vec::new();
        let mut i: usize = 0;
        while i < n
            invariant
                n == self.commands@.len(),
                i <= n,
                r@.len() == i,
                forall|j: int| 0 <= j < i ==> r@[j] == plan_spec(self@)[j],
            decreases n - i,
        {
            let resolved = match self.commands[i].builtin() {
                Some(b) => Resolved::Builtin(b),
                None => Resolved::External,
            };
            let reads_pipe = i > 0 && matches!(resolved, Resolved::External);
            let writes_pipe = i + 1 < n;
            r.push(StagePlan { resolved, reads_pipe, writes_pipe });
            i = i + 1;
        }
        proof {
            assert(r@ =~= plan_spec(self@));
        }
        r
    }
}

/// `build_fold`, generalized to an arbitrary starting state.
pub open spec fn build_fold_from(
    st: Option<(Seq<SpecCommand>, SpecCommand)>,
    ts: Seq<SpecToken>,
) -> Option<(Seq<SpecCommand>, SpecCommand)>
    decreases ts.len(),
{
    if ts.len() == 0 {
        st
    } else {
        build_step(build_fold_from(st, ts.drop_last()), ts.last())
    }
}

proof fn lemma_build_fold_is_from_init(ts: Seq<SpecToken>)
    ensures
        build_fold(ts) == build_fold_from(
            Some((Seq::<SpecCommand>::empty(), empty_command())),
            ts,
        ),
    decreases ts.len(),
{
    if ts.len() > 0 {
        lemma_build_fold_is_from_init(ts.drop_last());
    }
}

proof fn lemma_build_fold_from_append(
    st: Option<(Seq<SpecCommand>, SpecCommand)>,
    a: Seq<SpecToken>,
    b: Seq<SpecToken>,
)
    ensures
        build_fold_from(st, a + b) == build_fold_from(build_fold_from(st, a), b),
    decreases b.len(),
{
    if b.len() == 0 {
        assert(a + b =~= a);
    } else {
        assert((a + b).drop_last() =~= a + b.drop_last());
        assert((a + b).last() == b.last());
        lemma_build_fold_from_append(st, a, b.drop_last());
    }
}

/// A token sequence with no pipe in it.
pub open spec fn no_pipe(ts: Seq<SpecToken>) -> bool {
    forall|j: int| 0 <= j < ts.len() ==> !(#[trigger] ts[j] is Pipe)
}

/// A token sequence holding at least one argument token with non-empty text
/// (what it takes to give the stage under construction a name).
pub open spec fn has_named_arg(ts: Seq<SpecToken>) -> bool {
    exists|j: int|
        0 <= j < ts.len() && (#[trigger] ts[j] matches SpecToken::Arg(a) && a.len() > 0)
}

/// Folding pipe-free tokens from a live state never fails, never completes
/// a stage, and names the stage under construction exactly when it was
/// already named or some argument token has non-empty text.
proof fn lemma_build_fold_no_pipe(
    stages: Seq<SpecCommand>,
    cur: SpecCommand,
    ts: Seq<SpecToken>,
)
    requires
        no_pipe(ts),
    ensures
        build_fold_from(Some((stages, cur)), ts) matches Some((stages2, cur2)) && stages2
            == stages && (cur2.name.len() > 0 <==> (cur.name.len() > 0 || has_named_arg(ts))),
    decreases ts.len(),
{
    if ts.len() > 0 {
        assert(no_pipe(ts.drop_last()));
        lemma_build_fold_no_pipe(stages, cur, ts.drop_last());
        let st2 = build_fold_from(Some((stages, cur)), ts.drop_last());
        let cur2 = st2->Some_0.1;
        let last = ts.last();
        assert(ts[ts.len() - 1] == last);
        match last {
            SpecToken::Arg(a) => {
                if cur2.name.len() > 0 || a.len() > 0 {
                    assert(has_named_arg(ts) <==> (has_named_arg(ts.drop_last()) || a.len()
                        > 0)) by {
                        if has_named_arg(ts.drop_last()) {
                            let j = choose|j: int|
                                0 <= j < ts.drop_last().len() && (#[trigger] ts.drop_last()[j]
                                    matches SpecToken::Arg(a2) && a2.len() > 0);
                            assert(ts[j] == ts.drop_last()[j]);
                        }
                        if has_named_arg(ts) && a.len() == 0 {
                            let j = choose|j: int|
                                0 <= j < ts.len() && (#[trigger] ts[j] matches SpecToken::Arg(a2)
                                    && a2.len() > 0);
                            assert(ts.drop_last()[j] == ts[j]);
                        }
                    }
                } else {
                    assert forall|j: int|
                        0 <= j < ts.len() implies !(#[trigger] ts[j] matches SpecToken::Arg(a2)
                        && a2.len() > 0) by {
                        if j < ts.len() - 1 {
                            assert(ts[j] == ts.drop_last()[j]);
                        }
                    }
                }
            },
            SpecToken::Pipe => {
                assert(false);
            },
            SpecToken::Redirect { .. } => {
                assert(has_named_arg(ts) <==> has_named_arg(ts.drop_last())) by {
                    if has_named_arg(ts.drop_last()) {
                        let j = choose|j: int|
                            0 <= j < ts.drop_last().len() && (#[trigger] ts.drop_last()[j]
                                matches SpecToken::Arg(a2) && a2.len() > 0);
                        assert(ts[j] == ts.drop_last()[j]);
                    }
                    if has_named_arg(ts) {
                        let j = choose|j: int|
                            0 <= j < ts.len() && (#[trigger] ts[j] matches SpecToken::Arg(a2)
                                && a2.len() > 0);
                        assert(ts.drop_last()[j] == ts[j]);
                    }
                }
            },
        }
    }
}

/// Folding a non-empty run of argument tokens with non-empty text: the
/// first becomes the stage's name, the rest its arguments, in order.
proof fn lemma_build_fold_args(args: Seq<Seq<char>>)
    requires
        args.len() > 0,
        forall|i: int| 0 <= i < args.len() ==> #[trigger] args[i].len() > 0,
    ensures
        build_fold(args.map_values(|a: Seq<char>| SpecToken::Arg(a))) matches Some(
            (stages, cur),
        ) && stages == Seq::<SpecCommand>::empty() && cur == (SpecCommand {
            name: args[0],
            args: args.drop_first(),
            ..empty_command()
        }),
    decreases args.len(),
{
    let ts = args.map_values(|a: Seq<char>| SpecToken::Arg(a));
    if args.len() == 1 {
        assert(ts.drop_last().len() == 0);
        assert(build_fold(ts.drop_last()) == Some(
            (Seq::<SpecCommand>::empty(), empty_command()),
        ));
        assert(ts.last() == SpecToken::Arg(args[0]));
        assert(args.drop_first() =~= Seq::<Seq<char>>::empty());
        assert(build_fold(ts)->Some_0.1 =~= (SpecCommand {
            name: args[0],
            args: args.drop_first(),
            ..empty_command()
        }));
    } else {
        lemma_build_fold_args(args.drop_last());
        assert(ts.drop_last() =~= args.drop_last().map_values(|a: Seq<char>| SpecToken::Arg(a)));
        assert(ts.last() == SpecToken::Arg(args.last()));
        assert(args.drop_last()[0] == args[0]);
        assert(args.drop_last().drop_first().push(args.last()) =~= args.drop_first());
        assert(build_fold(ts)->Some_0.1 =~= (SpecCommand {
            name: args[0],
            args: args.drop_first(),
            ..empty_command()
        }));
    }
}

/// The quote-free round trip: an input line with no quotes, no escapes and
/// no operators parses to a single command, whose name is the first
/// whitespace-separated word and whose arguments are the remaining words,
/// with both destinations left on the process's own streams.
pub proof fn lemma_plain_round_trip(s: Seq<char>)
    requires
        is_plain(s),
        split_ws(s).len() > 0,
    ensures
        parse_spec(s) matches Ok(cs) && cs.len() == 1 && cs[0] == (SpecCommand {
            name: split_ws(s)[0],
            args: split_ws(s).drop_first(),
            ..empty_command()
        }),
{
    crate::lexer::lemma_tokenize_plain(s);
    crate::lexer::lemma_split_ws_nonempty(s);
    lemma_build_fold_args(split_ws(s));
    let ts = split_ws(s).map_values(|a: Seq<char>| SpecToken::Arg(a));
    assert(ts.len() > 0 && !(ts.last() is Pipe));
    assert(build_spec(ts)->Ok_0 =~= seq![
        SpecCommand { name: split_ws(s)[0], args: split_ws(s).drop_first(), ..empty_command() },
    ]);
}

/// One pipe, both sides named: the build yields exactly two stages.
pub proof fn lemma_one_pipe_two_stages(left: Seq<SpecToken>, right: Seq<SpecToken>)
    requires
        no_pipe(left),
        no_pipe(right),
        has_named_arg(left),
        has_named_arg(right),
    ensures
        build_spec(left + seq![SpecToken::Pipe] + right) matches Ok(cs) && cs.len() == 2,
{
    let ts = left + seq![SpecToken::Pipe] + right;
    let pipe_ts = seq![SpecToken::Pipe];
    let ghost init = Some((Seq::<SpecCommand>::empty(), empty_command()));
    lemma_build_fold_is_from_init(ts);
    lemma_build_fold_from_append(init, left + pipe_ts, right);
    lemma_build_fold_from_append(init, left, pipe_ts);
    lemma_build_fold_no_pipe(Seq::<SpecCommand>::empty(), empty_command(), left);
    let st1 = build_fold_from(init, left);
    let stages1 = st1->Some_0.0;
    let cur1 = st1->Some_0.1;
    assert(st1 == Some((stages1, cur1)));
    assert(stages1.len() == 0);
    assert(cur1.name.len() > 0);
    assert(pipe_ts.drop_last().len() == 0);
    assert(build_fold_from(st1, pipe_ts.drop_last()) == st1);
    assert(pipe_ts.last() == SpecToken::Pipe);
    let st2 = build_fold_from(st1, pipe_ts);
    assert(st2 == build_step(st1, SpecToken::Pipe));
    assert(st2 == Some((stages1.push(cur1), empty_command())));
    lemma_build_fold_no_pipe(stages1.push(cur1), empty_command(), right);
    let st3 = build_fold_from(st2, right);
    let stages3 = st3->Some_0.0;
    let cur3 = st3->Some_0.1;
    assert(stages3.len() == 1);
    assert(cur3.name.len() > 0);
    assert(build_fold(ts) == st3);
    assert(right.len() > 0) by {
        if right.len() == 0 {
            let j = choose|j: int|
                0 <= j < right.len() && (#[trigger] right[j] matches SpecToken::Arg(a) && a.len()
                    > 0);
            assert(false);
        }
    }
    assert(build_spec(ts)->Ok_0.len() == 2);
}

/// A pipe with nothing named before it fails the build with `EmptyCommand`,
/// whatever follows.
pub proof fn lemma_empty_before_pipe(left: Seq<SpecToken>, right: Seq<SpecToken>)
    requires
        no_pipe(left),
        !has_named_arg(left),
    ensures
        build_spec(left + seq![SpecToken::Pipe] + right) == Err::<Seq<SpecCommand>, _>(
            ShellError::EmptyCommand,
        ),
    decreases right.len(),
{
    let ghost init = Some((Seq::<SpecCommand>::empty(), empty_command()));
    let ts = left + seq![SpecToken::Pipe] + right;
    let pipe_ts = seq![SpecToken::Pipe];
    lemma_build_fold_is_from_init(ts);
    lemma_build_fold_from_append(init, left + pipe_ts, right);
    lemma_build_fold_from_append(init, left, pipe_ts);
    lemma_build_fold_no_pipe(Seq::<SpecCommand>::empty(), empty_command(), left);
    let st1 = build_fold_from(init, left);
    let stages1 = st1->Some_0.0;
    let cur1 = st1->Some_0.1;
    assert(st1 == Some((stages1, cur1)));
    assert(cur1.name.len() == 0);
    assert(pipe_ts.drop_last().len() == 0);
    assert(build_fold_from(st1, pipe_ts.drop_last()) == st1);
    assert(pipe_ts.last() == SpecToken::Pipe);
    assert(build_fold_from(st1, pipe_ts) == build_step(st1, SpecToken::Pipe));
    assert(build_fold_from(st1, pipe_ts) is None);
    lemma_build_fold_from_none(right);
}

proof fn lemma_build_fold_from_none(ts: Seq<SpecToken>)
    ensures
        build_fold_from(None, ts) is None,
    decreases ts.len(),
{
    if ts.len() > 0 {
        lemma_build_fold_from_none(ts.drop_last());
    }
}

/// A trailing pipe — nothing following the last `|` — fails the build with
/// `EmptyCommand`.
pub proof fn lemma_trailing_pipe(ts: Seq<SpecToken>)
    requires
        ts.len() > 0,
        ts.last() is Pipe,
    ensures
        build_spec(ts) == Err::<Seq<SpecCommand>, _>(ShellError::EmptyCommand),
{
}

/// How one stage dispatches: in-process builtin, or external program.
#[derive(Clone, Copy, PartialEq, Eq, Structural, Debug)]
pub enum Resolved {
    Builtin(Builtin),
    External,
}

/// How one stage is wired when the pipeline runs. A stage writes to a fresh
/// pipe unless it is the last; an external stage reads the previous stage's
/// pipe; a builtin runs in-process and reads no pipe.
#[derive(Clone, Copy, PartialEq, Eq, Structural, Debug)]
pub struct StagePlan {
    pub resolved: Resolved,
    pub reads_pipe: bool,
    pub writes_pipe: bool,
}

/// Which dispatch a command's name resolves to.
pub open spec fn resolve_spec(name: Seq<char>) -> Resolved {
    match lookup_spec(name) {
        Some(b) => Resolved::Builtin(b),
        None => Resolved::External,
    }
}

/// The wiring plan of a pipeline: stage `i` is spawned externally or run
/// in-process per `resolve_spec`; every stage but the last writes to a fresh
/// pipe; an external stage after the first reads the previous stage's pipe.
pub open spec fn plan_spec(cs: Seq<SpecCommand>) -> Seq<StagePlan> {
    Seq::new(
        cs.len(),
        |i: int| StagePlan {
            resolved: resolve_spec(cs[i].name),
            reads_pipe: i > 0 && resolve_spec(cs[i].name) is External,
            writes_pipe: i + 1 < cs.len(),
        },
    )
}

} // verus!
