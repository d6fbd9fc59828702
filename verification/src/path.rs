//! Executable resolution: the candidate files that a command name denotes
//! under a `PATH`-style list of directories, and the choice of the first
//! candidate that exists. Asking the file system whether a candidate exists
//! is the surrounding application's job; it hands the answers in as a vector
//! of flags, one per candidate.

use vstd::prelude::*;

use crate::chars::{append_chars, chars_of, copy_chars, string_from_chars};
use crate::command::str_views;

verus! {

/// Folding a path list character by character: the directories completed so
/// far and the one under construction.
pub open spec fn split_fold(s: Seq<char>) -> (Seq<Seq<char>>, Seq<char>)
    decreases s.len(),
{
    if s.len() == 0 {
        (Seq::empty(), Seq::empty())
    } else {
        let st = split_fold(s.drop_last());
        if s.last() == ':' {
            (st.0.push(st.1), Seq::empty())
        } else {
            (st.0, st.1.push(s.last()))
        }
    }
}

/// The directories of a `PATH`-style list: split on `:`, one (possibly
/// empty) entry between each pair of separators; an empty list has no
/// entries at all.
pub open spec fn split_paths_spec(s: Seq<char>) -> Seq<Seq<char>> {
    if s.len() == 0 {
        Seq::empty()
    } else {
        split_fold(s).0.push(split_fold(s).1)
    }
}

/// The file that `name` denotes under directory `dir`: the two joined by a
/// single `/`, not doubling one that `dir` already ends with; an empty
/// directory leaves the name bare.
pub open spec fn candidate_spec(dir: Seq<char>, name: Seq<char>) -> Seq<char> {
    if dir.len() == 0 {
        name
    } else if dir.last() == '/' {
        dir + name
    } else {
        dir + seq!['/'] + name
    }
}

/// Every candidate file that `name` denotes under the path list, in
/// directory order.
pub open spec fn path_candidates_spec(path: Seq<char>, name: Seq<char>) -> Seq<Seq<char>> {
    split_paths_spec(path).map_values(|d: Seq<char>| candidate_spec(d, name))
}

/// The first candidate whose flag is set, if any.
pub open spec fn first_existing_spec(cs: Seq<Seq<char>>, fs: Seq<bool>) -> Option<Seq<char>>
    decreases cs.len(),
{
    if cs.len() == 0 || fs.len() == 0 {
        None
    } else if fs[0] {
        Some(cs[0])
    } else {
        first_existing_spec(cs.drop_first(), fs.drop_first())
    }
}

/// What searching the executable path returns: the first candidate of
/// `path_candidates_spec` that exists, where `fs` says which ones do.
pub open spec fn find_on_path_spec(path: Seq<char>, name: Seq<char>, fs: Seq<bool>) -> Option<
    Seq<char>,
> {
    first_existing_spec(path_candidates_spec(path, name), fs)
}

/// The view of a sequence of character vectors.
pub open spec fn chars_views(vs: Seq<Vec<char>>) -> Seq<Seq<char>> {
    vs.map_values(|v: Vec<char>| v@)
}

proof fn lemma_split_fold_snoc(s: Seq<char>, i: int)
    requires
        0 <= i < s.len(),
    ensures
        split_fold(s.take(i + 1)) == if s[i] == ':' {
            (split_fold(s.take(i)).0.push(split_fold(s.take(i)).1), Seq::<char>::empty())
        } else {
            (split_fold(s.take(i)).0, split_fold(s.take(i)).1.push(s[i]))
        },
{
    assert(s.take(i + 1).drop_last() =~= s.take(i));
    assert(s.take(i + 1).last() == s[i]);
}

/// The directories of a `PATH`-style list, split on `:`.
pub fn split_paths(path_var: &str) -> (r: Vec<Vec<char>>)
    ensures
        chars_views(r@) == split_paths_spec(path_var@),
{
    let v = chars_of(path_var);
    let n = v.len();
    if n == 0 {
        let r: Vec<Vec<char>> = Vec::new();
        proof {
            assert(chars_views(r@) =~= split_paths_spec(path_var@));
        }
        return r;
    }
    let mut parts: Vec<Vec<char>> = Vec::new();
    let mut cur: Vec<char> = Vec::new();
    let mut i: usize = 0;
    proof {
        assert(v@.take(0) =~= Seq::<char>::empty());
        assert(chars_views(parts@) =~= split_fold(v@.take(0)).0);
    }
    while i < n
        invariant
            n == v@.len(),
            i <= n,
            v@ == path_var@,
            chars_views(parts@) == split_fold(v@.take(i as int)).0,
            cur@ == split_fold(v@.take(i as int)).1,
        decreases n - i,
    {
        proof {
            lemma_split_fold_snoc(v@, i as int);
        }
        let c = v[i];
        if c == ':' {
            let done = cur;
            cur = Vec::new();
            proof {
                assert(chars_views(parts@.push(done)) =~= chars_views(parts@).push(done@));
            }
            parts.push(done);
        } else {
            cur.push(c);
        }
        i = i + 1;
    }
    proof {
        assert(v@.take(n as int) =~= v@);
        assert(chars_views(parts@.push(cur)) =~= chars_views(parts@).push(cur@));
    }
    parts.push(cur);
    parts
}

/// Every candidate file that `name` denotes under the path list, in
/// directory order. Used both to resolve a command and by `type`.
pub fn path_candidates(path_var: &str, name: &str) -> (r: Vec<String>)
    ensures
        str_views(r@) == path_candidates_spec(path_var@, name@),
{
    let dirs = split_paths(path_var);
    let name_chars = chars_of(name);
    let mut out: Vec<String> = Vec::new();
    let n = dirs.len();
    let mut i: usize = 0;
    while i < n
        invariant
            n == dirs@.len(),
            name_chars@ == name@,
            i <= n,
            chars_views(dirs@) == split_paths_spec(path_var@),
            str_views(out@).len() == i,
            forall|j: int| 0 <= j < i ==> str_views(out@)[j] == path_candidates_spec(
                path_var@,
                name@,
            )[j],
        decreases n - i,
    {
        let dir = &dirs[i];
        let mut cand: Vec<char>;
        if dir.len() == 0 {
            cand = copy_chars(&name_chars);
        } else {
            cand = copy_chars(dir);
            if cand[cand.len() - 1] != '/' {
                cand.push('/');
                proof {
                    assert(cand@ =~= dir@ + seq!['/']);
                }
            }
            append_chars(&mut cand, &name_chars);
        }
        proof {
            assert(cand@ == candidate_spec(dirs@[i as int]@, name@));
        }
        let s = string_from_chars(&cand);
        proof {
            assert(str_views(out@.push(s)) =~= str_views(out@).push(s@));
        }
        out.push(s);
        i = i + 1;
    }
    proof {
        assert(str_views(out@) =~= path_candidates_spec(path_var@, name@));
    }
    out
}

/// The first candidate that exists: `exists[i]` says whether `candidates[i]`
/// names an existing regular file.
pub fn first_existing(candidates: &Vec<String>, exists_flags: &Vec<bool>) -> (r: Option<String>)
    requires
        candidates@.len() == exists_flags@.len(),
    ensures
        match r {
            Some(s) => first_existing_spec(str_views(candidates@), exists_flags@) matches Some(c)
                && s@ == c,
            None => first_existing_spec(str_views(candidates@), exists_flags@) is None,
        },
{
    let n = candidates.len();
    let mut i: usize = 0;
    proof {
        assert(str_views(candidates@).skip(0) =~= str_views(candidates@));
        assert(exists_flags@.skip(0) =~= exists_flags@);
    }
    while i < n
        invariant
            n == candidates@.len(),
            n == exists_flags@.len(),
            i <= n,
            first_existing_spec(str_views(candidates@), exists_flags@) == first_existing_spec(
                str_views(candidates@).skip(i as int),
                exists_flags@.skip(i as int),
            ),
        decreases n - i,
    {
        proof {
            assert(str_views(candidates@).skip(i as int)[0] == candidates@[i as int]@);
            assert(str_views(candidates@).skip(i as int).drop_first() =~= str_views(
                candidates@,
            ).skip(i + 1));
            assert(exists_flags@.skip(i as int).drop_first() =~= exists_flags@.skip(i + 1));
        }
        if exists_flags[i] {
            return Some(candidates[i].clone());
        }
        i = i + 1;
    }
    proof {
        assert(str_views(candidates@).skip(n as int).len() == 0);
    }
    None
}

/// Searching the executable path is a function of the path list, the name,
/// and which candidates exist: two searches made with the same three agree.
pub proof fn lemma_find_on_path_deterministic(
    path: Seq<char>,
    name: Seq<char>,
    fs: Seq<bool>,
    r1: Option<Seq<char>>,
    r2: Option<Seq<char>>,
)
    requires
        r1 == find_on_path_spec(path, name, fs),
        r2 == find_on_path_spec(path, name, fs),
    ensures
        r1 == r2,
{
}

} // verus!
