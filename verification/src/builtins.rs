//! What each builtin computes, as a function of the command's arguments and
//! the ambient values handed in by the caller (home directory, the result of
//! an executable search). Writing the computed text to a stream, changing
//! the working directory and ending the process are the surrounding
//! application's job.

use vstd::prelude::*;

use crate::chars::{chars_of, push_char};
use crate::command::{lookup_spec, str_views, Command};
use crate::numbers::{parse_i32, parse_i32_spec};

verus! {

use vstd::string::StringExecFns;

/// The arguments joined by single spaces, as `echo` prints them.
pub open spec fn join_spaces(args: Seq<Seq<char>>) -> Seq<char>
    decreases args.len(),
{
    if args.len() == 0 {
        Seq::empty()
    } else if args.len() == 1 {
        args[0]
    } else {
        join_spaces(args.drop_last()) + seq![' '] + args.last()
    }
}

/// The view of an optional string.
pub open spec fn opt_view(o: Option<String>) -> Option<Seq<char>> {
    match o {
        Some(s) => Some(s@),
        None => None,
    }
}

/// What `type` prints for `cmd`, given the result `found` of searching the
/// executable path for it: a builtin is announced as such; otherwise the
/// found path, or `not found`.
pub open spec fn type_message_spec(cmd: Seq<char>, found: Option<Seq<char>>) -> Seq<char> {
    if lookup_spec(cmd) is Some {
        cmd + " is a shell builtin"@
    } else {
        match found {
            Some(p) => cmd + " is "@ + p,
            None => cmd + ": not found"@,
        }
    }
}

/// Where `cd` goes: `~` or no argument means the home directory (empty if
/// there is none, which then fails to open); anything else is taken as a
/// literal path.
pub open spec fn cd_target_spec(args: Seq<Seq<char>>, home: Option<Seq<char>>) -> Seq<char> {
    if args.len() == 0 || args[0] == seq!['~'] {
        match home {
            Some(h) => h,
            None => Seq::empty(),
        }
    } else {
        args[0]
    }
}

/// The status `exit` ends the process with: its first argument parsed as a
/// signed 32-bit integer, or `0` if absent or unparsable.
pub open spec fn exit_status_spec(args: Seq<Seq<char>>) -> i32 {
    if args.len() > 0 {
        match parse_i32_spec(args[0]) {
            Some(v) => v,
            None => 0,
        }
    } else {
        0
    }
}

proof fn lemma_join_spaces_snoc(args: Seq<Seq<char>>, i: int)
    requires
        1 <= i < args.len(),
    ensures
        join_spaces(args.take(i + 1)) == join_spaces(args.take(i)) + seq![' '] + args[i],
{
    assert(args.take(i + 1).drop_last() =~= args.take(i));
    assert(args.take(i + 1).last() == args[i]);
}

impl Command {
    /// The line `echo` writes (without the trailing newline): the arguments
    /// joined by single spaces.
    pub fn echo_output(&self) -> (r: String)
        ensures
            r@ == join_spaces(self@.args),
    {
        let args = self.args();
        let ghost vs = str_views(args@);
        let n = args.len();
        let mut out = String::new();
        let mut i: usize = 0;
        proof {
            assert(vs.take(0) =~= Seq::<Seq<char>>::empty());
        }
        while i < n
            invariant
                n == args@.len(),
                i <= n,
                vs == str_views(args@),
                out@ == join_spaces(vs.take(i as int)),
            decreases n - i,
        {
            if i > 0 {
                push_char(&mut out, ' ');
                proof {
                    lemma_join_spaces_snoc(vs, i as int);
                    assert(join_spaces(vs.take(i as int)).push(' ') =~= join_spaces(
                        vs.take(i as int),
                    ) + seq![' ']);
                }
            } else {
                proof {
                    assert(vs.take(1).len() == 1);
                    assert(vs.take(1)[0] == vs[0]);
                }
            }
            out.append(args[i].as_str());
            i = i + 1;
        }
        proof {
            assert(vs.take(n as int) =~= vs);
        }
        out
    }

    /// The line `type` writes for its first argument, given the result of
    /// searching the executable path for that argument; nothing is written
    /// when there is no argument.
    pub fn handle_type(&self, found_path: &Option<String>) -> (r: Option<String>)
        ensures
            self@.args.len() == 0 ==> r is None,
            self@.args.len() > 0 ==> (r matches Some(m) && m@ == type_message_spec(
                self@.args[0],
                opt_view(*found_path),
            )),
    {
        let args = self.args();
        if args.len() == 0 {
            return None;
        }
        let cmd = &args[0];
        let mut out = cmd.clone();
        if crate::command::Builtin::lookup(cmd.as_str()).is_some() {
            out.append(" is a shell builtin");
        } else {
            match found_path {
                Some(p) => {
                    out.append(" is ");
                    out.append(p.as_str());
                },
                None => {
                    out.append(": not found");
                },
            }
        }
        Some(out)
    }

    /// Where `cd` goes, given the home directory.
    pub fn cd_target(&self, home: &Option<String>) -> (r: String)
        ensures
            r@ == cd_target_spec(self@.args, opt_view(*home)),
    {
        let args = self.args();
        let use_home: bool = if args.len() == 0 {
            true
        } else {
            let v = chars_of(args[0].as_str());
            if v.len() == 1 && v[0] == '~' {
                proof {
                    assert(v@ =~= seq!['~']);
                }
                true
            } else {
                proof {
                    assert(v@ != seq!['~']);
                }
                false
            }
        };
        if use_home {
            match home {
                Some(h) => h.clone(),
                None => String::new(),
            }
        } else {
            args[0].clone()
        }
    }

    /// The status `exit` ends the process with.
    pub fn exit_status(&self) -> (r: i32)
        ensures
            r == exit_status_spec(self@.args),
    {
        let args = self.args();
        if args.len() == 0 {
            return 0;
        }
        match parse_i32(args[0].as_str()) {
            Some(v) => v,
            None => 0,
        }
    }
}

/// The error line `cd` writes when the target cannot be entered.
pub fn cd_error_message(target: &str) -> (r: String)
    ensures
        r@ == "cd: "@ + target@ + ": No such file or directory"@,
{
    let mut out = String::from_str("cd: ");
    out.append(target);
    out.append(": No such file or directory");
    out
}

/// The error line written when a command is neither a builtin nor found on
/// the executable path.
pub fn not_found_message(name: &str) -> (r: String)
    ensures
        r@ == name@ + ": command not found"@,
{
    let mut out = name.to_owned();
    out.append(": command not found");
    out
}

} // verus!
