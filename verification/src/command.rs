//! One pipeline stage: a program or builtin name, its arguments, and the two
//! output destinations (standard output and standard error), each either the
//! process's own stream or a file named by a redirection directive. Opening
//! files and spawning processes is the surrounding application's job; here a
//! destination is plain data.

use vstd::prelude::*;

use crate::chars::chars_of;

verus! {

use vstd::string::StringExecFns;

/// The closed set of in-process commands.
#[derive(Clone, Copy, PartialEq, Eq, Structural, Debug)]
pub enum Builtin {
    Cd,
    Exit,
    Echo,
    Pwd,
    Type,
}

/// The (lower-case) name of a builtin.
pub open spec fn builtin_name(b: Builtin) -> Seq<char> {
    match b {
        Builtin::Cd => seq!['c', 'd'],
        Builtin::Exit => seq!['e', 'x', 'i', 't'],
        Builtin::Echo => seq!['e', 'c', 'h', 'o'],
        Builtin::Pwd => seq!['p', 'w', 'd'],
        Builtin::Type => seq!['t', 'y', 'p', 'e'],
    }
}

/// `c` matches the lower-case letter `l`, ignoring ASCII case.
pub open spec fn char_eq_ci(c: char, l: char) -> bool {
    c == l || (97 <= l as u32 <= 122 && c as u32 + 32 == l as u32)
}

/// `s` is `name` up to ASCII case (`name` being all lower-case).
pub open spec fn matches_ci(s: Seq<char>, name: Seq<char>) -> bool {
    s.len() == name.len() && forall|i: int| 0 <= i < s.len() ==> char_eq_ci(s[i], name[i])
}

/// Which builtin, if any, the (case-insensitive) name `s` designates.
pub open spec fn lookup_spec(s: Seq<char>) -> Option<Builtin> {
    if matches_ci(s, builtin_name(Builtin::Cd)) {
        Some(Builtin::Cd)
    } else if matches_ci(s, builtin_name(Builtin::Exit)) {
        Some(Builtin::Exit)
    } else if matches_ci(s, builtin_name(Builtin::Echo)) {
        Some(Builtin::Echo)
    } else if matches_ci(s, builtin_name(Builtin::Pwd)) {
        Some(Builtin::Pwd)
    } else if matches_ci(s, builtin_name(Builtin::Type)) {
        Some(Builtin::Type)
    } else {
        None
    }
}

fn eq_ci(c: char, l: char) -> (r: bool)
    ensures
        r == char_eq_ci(c, l),
{
    c == l || (l as u32 >= 97 && l as u32 <= 122 && c as u32 + 32 == l as u32)
}

fn eq_ci_chars(v: &Vec<char>, name: &Vec<char>) -> (r: bool)
    ensures
        r == matches_ci(v@, name@),
{
    if v.len() != name.len() {
        return false;
    }
    let n = v.len();
    let mut i: usize = 0;
    while i < n
        invariant
            n == v@.len(),
            v@.len() == name@.len(),
            i <= n,
            forall|j: int| 0 <= j < i ==> char_eq_ci(v@[j], name@[j]),
        decreases n - i,
    {
        if !eq_ci(v[i], name[i]) {
            assert(!char_eq_ci(v@[i as int], name@[i as int]));
            return false;
        }
        i = i + 1;
    }
    true
}

impl Builtin {
    /// The builtin with this name, matched case-insensitively, if any.
    pub fn lookup(name: &str) -> (r: Option<Builtin>)
        ensures
            r == lookup_spec(name@),
    {
        let v = chars_of(name);
        let cd: Vec<char> = vec!['c', 'd'];
        let exit: Vec<char> = vec!['e', 'x', 'i', 't'];
        let echo: Vec<char> = vec!['e', 'c', 'h', 'o'];
        let pwd: Vec<char> = vec!['p', 'w', 'd'];
        let type_: Vec<char> = vec!['t', 'y', 'p', 'e'];
        proof {
            assert(cd@ =~= builtin_name(Builtin::Cd));
            assert(exit@ =~= builtin_name(Builtin::Exit));
            assert(echo@ =~= builtin_name(Builtin::Echo));
            assert(pwd@ =~= builtin_name(Builtin::Pwd));
            assert(type_@ =~= builtin_name(Builtin::Type));
        }
        if eq_ci_chars(&v, &cd) {
            Some(Builtin::Cd)
        } else if eq_ci_chars(&v, &exit) {
            Some(Builtin::Exit)
        } else if eq_ci_chars(&v, &echo) {
            Some(Builtin::Echo)
        } else if eq_ci_chars(&v, &pwd) {
            Some(Builtin::Pwd)
        } else if eq_ci_chars(&v, &type_) {
            Some(Builtin::Type)
        } else {
            None
        }
    }

    /// The lower-case name of this builtin.
    pub fn name(&self) -> (r: String)
        ensures
            r@ == builtin_name(*self),
    {
        match self {
            Builtin::Cd => {
                let r = String::from_str("cd");
                proof {
                    reveal_strlit("cd");
                    assert(r@ =~= builtin_name(Builtin::Cd));
                }
                r
            },
            Builtin::Exit => {
                let r = String::from_str("exit");
                proof {
                    reveal_strlit("exit");
                    assert(r@ =~= builtin_name(Builtin::Exit));
                }
                r
            },
            Builtin::Echo => {
                let r = String::from_str("echo");
                proof {
                    reveal_strlit("echo");
                    assert(r@ =~= builtin_name(Builtin::Echo));
                }
                r
            },
            Builtin::Pwd => {
                let r = String::from_str("pwd");
                proof {
                    reveal_strlit("pwd");
                    assert(r@ =~= builtin_name(Builtin::Pwd));
                }
                r
            },
            Builtin::Type => {
                let r = String::from_str("type");
                proof {
                    reveal_strlit("type");
                    assert(r@ =~= builtin_name(Builtin::Type));
                }
                r
            },
        }
    }

    /// Every builtin, in declaration order.
    pub fn all() -> (r: Vec<Builtin>)
        ensures
            r@ == seq![
                Builtin::Cd,
                Builtin::Exit,
                Builtin::Echo,
                Builtin::Pwd,
                Builtin::Type,
            ],
    {
        let r: Vec<Builtin> = vec![
            Builtin::Cd,
            Builtin::Exit,
            Builtin::Echo,
            Builtin::Pwd,
            Builtin::Type,
        ];
        proof {
            assert(r@ =~= seq![
                Builtin::Cd,
                Builtin::Exit,
                Builtin::Echo,
                Builtin::Pwd,
                Builtin::Type,
            ]);
        }
        r
    }
}

/// An output destination: the process's own stream for that role, or a file
/// named by a redirection directive.
#[derive(Debug)]
pub enum Sink {
    Standard,
    File { path: String, append: bool },
}

/// The mathematical value of a `Sink`.
#[verifier::ext_equal]
pub enum SpecSink {
    Standard,
    File { path: Seq<char>, append: bool },
}

impl View for Sink {
    type V = SpecSink;

    open spec fn view(&self) -> SpecSink {
        match self {
            Sink::Standard => SpecSink::Standard,
            Sink::File { path, append } => SpecSink::File { path: path@, append: *append },
        }
    }
}

/// The mathematical value of a `Command`.
#[verifier::ext_equal]
pub struct SpecCommand {
    pub name: Seq<char>,
    pub args: Seq<Seq<char>>,
    pub output: SpecSink,
    pub err: SpecSink,
}

/// The views of a sequence of strings.
pub open spec fn str_views(ss: Seq<String>) -> Seq<Seq<char>> {
    ss.map_values(|s: String| s@)
}

/// One pipeline stage.
#[derive(Debug)]
pub struct Command {
    name: String,
    args: Vec<String>,
    output: Sink,
    err: Sink,
}

impl View for Command {
    type V = SpecCommand;

    closed spec fn view(&self) -> SpecCommand {
        SpecCommand {
            name: self.name@,
            args: str_views(self.args@),
            output: self.output@,
            err: self.err@,
        }
    }
}

/// A command that has received no tokens yet: no name, no arguments, both
/// destinations the process's own streams.
pub open spec fn empty_command() -> SpecCommand {
    SpecCommand {
        name: Seq::empty(),
        args: Seq::empty(),
        output: SpecSink::Standard,
        err: SpecSink::Standard,
    }
}

/// What `push_arg` does: the first argument token becomes the name, later
/// ones append to the arguments.
pub open spec fn push_arg_spec(c: SpecCommand, a: Seq<char>) -> SpecCommand {
    if c.name.len() == 0 {
        SpecCommand { name: a, ..c }
    } else {
        SpecCommand { args: c.args.push(a), ..c }
    }
}

impl Command {
    pub fn new() -> (r: Command)
        ensures
            r@ == empty_command(),
    {
        let r = Command {
            name: String::new(),
            args: Vec::new(),
            output: Sink::Standard,
            err: Sink::Standard,
        };
        proof {
            assert(r@ =~= empty_command());
        }
        r
    }

    pub fn push_arg(&mut self, current_arg: &str)
        ensures
            final(self)@ == push_arg_spec(old(self)@, current_arg@),
    {
        if self.name.as_str().is_empty() {
            self.name = current_arg.to_owned();
        } else {
            self.args.push(current_arg.to_owned());
            proof {
                assert(str_views(self.args@) =~= str_views(old(self).args@).push(current_arg@));
            }
        }
        proof {
            assert(final(self)@ =~= push_arg_spec(old(self)@, current_arg@));
        }
    }

    pub fn set_output(&mut self, output: Sink)
        ensures
            final(self)@ == (SpecCommand { output: output@, ..old(self)@ }),
    {
        self.output = output;
        proof {
            assert(final(self)@ =~= (SpecCommand { output: self.output@, ..old(self)@ }));
        }
    }

    pub fn set_err(&mut self, err: Sink)
        ensures
            final(self)@ == (SpecCommand { err: err@, ..old(self)@ }),
    {
        self.err = err;
        proof {
            assert(final(self)@ =~= (SpecCommand { err: self.err@, ..old(self)@ }));
        }
    }

    /// A command is empty while it has received no argument tokens.
    pub fn is_empty(&self) -> (r: bool)
        ensures
            r == (self@.name.len() == 0),
    {
        self.name.as_str().is_empty()
    }

    /// Whether the name designates a builtin (case-insensitively).
    pub fn is_builtin(&self) -> (r: bool)
        ensures
            r == (lookup_spec(self@.name) is Some),
    {
        Builtin::lookup(self.name.as_str()).is_some()
    }

    /// The builtin this command dispatches to, if any.
    pub fn builtin(&self) -> (r: Option<Builtin>)
        ensures
            r == lookup_spec(self@.name),
    {
        Builtin::lookup(self.name.as_str())
    }

    pub fn name(&self) -> (r: &String)
        ensures
            r@ == self@.name,
    {
        &self.name
    }

    pub fn args(&self) -> (r: &Vec<String>)
        ensures
            str_views(r@) == self@.args,
    {
        &self.args
    }

    pub fn output(&self) -> (r: &Sink)
        ensures
            r@ == self@.output,
    {
        &self.output
    }

    pub fn err(&self) -> (r: &Sink)
        ensures
            r@ == self@.err,
    {
        &self.err
    }
}

} // verus!
