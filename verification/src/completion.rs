//! Completion queries: the set of invokable command names matching a prefix
//! (builtins plus names found on the executable path), sorted and
//! deduplicated, and the longest common prefix of a sorted batch of names.
//! Scanning the directories on the path is the surrounding application's
//! job; it hands the names it found in as plain strings.

use vstd::prelude::*;

use crate::chars::chars_of;
use crate::command::{builtin_name, str_views, Builtin};

verus! {

broadcast use vstd::utf8::char_u32_cast;

/// Strict lexicographic order on character sequences, by code point.
pub open spec fn lex_lt(a: Seq<char>, b: Seq<char>) -> bool
    decreases a.len(),
{
    if b.len() == 0 {
        false
    } else if a.len() == 0 {
        true
    } else if (a[0] as u32) < (b[0] as u32) {
        true
    } else if a[0] == b[0] {
        lex_lt(a.drop_first(), b.drop_first())
    } else {
        false
    }
}

/// Any two character sequences are ordered or equal.
pub proof fn lemma_lex_lt_total(a: Seq<char>, b: Seq<char>)
    ensures
        lex_lt(a, b) || lex_lt(b, a) || a == b,
    decreases a.len(),
{
    if a.len() == 0 && b.len() == 0 {
        assert(a =~= b);
    } else if a.len() == 0 || b.len() == 0 {
    } else if (a[0] as u32) < (b[0] as u32) || (b[0] as u32) < (a[0] as u32) {
    } else {
        vstd::utf8::char_u32_cast(a[0], a[0] as u32);
        vstd::utf8::char_u32_cast(b[0], a[0] as u32);
        assert(a[0] == b[0]);
        lemma_lex_lt_total(a.drop_first(), b.drop_first());
        if a.drop_first() == b.drop_first() {
            assert(a.drop_first().len() == a.len() - 1);
            assert(b.drop_first().len() == b.len() - 1);
            assert(a.len() == b.len());
            assert forall|i: int| 0 <= i < a.len() implies a[i] == b[i] by {
                if i > 0 {
                    assert(a[i] == a.drop_first()[i - 1]);
                    assert(b[i] == b.drop_first()[i - 1]);
                }
            }
            assert(a =~= b);
        }
    }
}

/// Strictly ascending, hence also free of duplicates.
pub open spec fn sorted_strict(ss: Seq<Seq<char>>) -> bool {
    forall|i: int| 0 <= i < ss.len() - 1 ==> lex_lt(#[trigger] ss[i], ss[i + 1])
}

/// Whether `a` comes strictly before `b` in lexicographic order.
pub fn lt_chars(a: &Vec<char>, b: &Vec<char>) -> (r: bool)
    ensures
        r == lex_lt(a@, b@),
{
    let n = a.len();
    let m = b.len();
    let mut i: usize = 0;
    proof {
        assert(a@.skip(0) =~= a@);
        assert(b@.skip(0) =~= b@);
    }
    while i < n && i < m
        invariant
            n == a@.len(),
            m == b@.len(),
            i <= n,
            i <= m,
            lex_lt(a@, b@) == lex_lt(a@.skip(i as int), b@.skip(i as int)),
        decreases n - i,
    {
        proof {
            assert(a@.skip(i as int)[0] == a@[i as int]);
            assert(b@.skip(i as int)[0] == b@[i as int]);
            assert(a@.skip(i as int).drop_first() =~= a@.skip(i + 1));
            assert(b@.skip(i as int).drop_first() =~= b@.skip(i + 1));
        }
        if (a[i] as u32) < (b[i] as u32) {
            return true;
        }
        if a[i] != b[i] {
            return false;
        }
        i = i + 1;
    }
    proof {
        if i == m {
            assert(b@.skip(i as int).len() == 0);
        } else {
            assert(a@.skip(i as int).len() == 0);
            assert(b@.skip(i as int).len() > 0);
        }
    }
    i < m
}

/// Insert `s` into a strictly sorted vector, keeping it sorted; a value
/// already present is not inserted twice.
fn insert_sorted(out: &mut Vec<String>, s: String)
    requires
        sorted_strict(str_views(old(out)@)),
    ensures
        sorted_strict(str_views(final(out)@)),
        forall|x: Seq<char>|
            str_views(final(out)@).contains(x) <==> (str_views(old(out)@).contains(x) || x == s@),
{
    let s_chars = chars_of(s.as_str());
    let n = out.len();
    let mut i: usize = 0;
    loop
        invariant
            n == out@.len(),
            out@ == old(out)@,
            i <= n,
            s_chars@ == s@,
            forall|j: int| 0 <= j < i ==> lex_lt(#[trigger] str_views(out@)[j], s@),
        ensures
            out@ == old(out)@,
            i <= n,
            forall|j: int| 0 <= j < i ==> lex_lt(#[trigger] str_views(out@)[j], s@),
            i < n ==> !lex_lt(str_views(out@)[i as int], s@),
        decreases n - i,
    {
        if i >= n {
            break ;
        }
        let oc = chars_of(out[i].as_str());
        if !lt_chars(&oc, &s_chars) {
            break ;
        }
        i = i + 1;
    }
    if i < n && out[i] == s {
        proof {
            assert(str_views(out@)[i as int] == s@);
            assert(str_views(out@).contains(s@));
        }
        return ;
    }
    let ghost old_vs = str_views(out@);
    proof {
        if i < n {
            lemma_lex_lt_total(s@, old_vs[i as int]);
            assert(lex_lt(s@, old_vs[i as int]));
        }
        old_vs.insert_ensures(i as int, s@);
    }
    out.insert(i, s);
    let ghost new_vs = str_views(out@);
    proof {
        old(out)@.insert_ensures(i as int, s);
        assert forall|k: int| 0 <= k < new_vs.len() implies new_vs[k] == old_vs.insert(
            i as int,
            s@,
        )[k] by {
            assert(new_vs[k] == out@[k]@);
        }
        assert(new_vs =~= old_vs.insert(i as int, s@));
        assert forall|j: int| 0 <= j < new_vs.len() - 1 implies lex_lt(
            #[trigger] new_vs[j],
            new_vs[j + 1],
        ) by {
            if j + 1 < i {
                assert(new_vs[j] == old_vs[j]);
                assert(new_vs[j + 1] == old_vs[j + 1]);
            } else if j + 1 == i {
                assert(new_vs[j] == old_vs[j]);
                assert(new_vs[j + 1] == s@);
            } else if j == i {
                assert(new_vs[j] == s@);
                assert(new_vs[j + 1] == old_vs[j]);
            } else {
                assert(new_vs[j] == old_vs[j - 1]);
                assert(new_vs[j + 1] == old_vs[j]);
            }
        }
        assert forall|x: Seq<char>| new_vs.contains(x) implies (old_vs.contains(x) || x == s@) by {
            let k = choose|k: int| 0 <= k < new_vs.len() && new_vs[k] == x;
            if k < i {
                assert(old_vs[k] == x);
            } else if k > i {
                assert(old_vs[k - 1] == x);
            }
        }
        assert forall|x: Seq<char>| (old_vs.contains(x) || x == s@) implies new_vs.contains(
            x,
        ) by {
            if x == s@ {
                assert(new_vs[i as int] == x);
            } else {
                let k = choose|k: int| 0 <= k < old_vs.len() && old_vs[k] == x;
                if k < i {
                    assert(new_vs[k] == x);
                } else {
                    assert(new_vs[k + 1] == x);
                }
            }
        }
    }
}

/// Whether `p` is a prefix of `s`.
pub fn is_prefix_chars(p: &Vec<char>, s: &Vec<char>) -> (r: bool)
    ensures
        r == p@.is_prefix_of(s@),
{
    let n = p.len();
    if n > s.len() {
        return false;
    }
    let mut i: usize = 0;
    while i < n
        invariant
            n == p@.len(),
            n <= s@.len(),
            i <= n,
            forall|j: int| 0 <= j < i ==> p@[j] == s@[j],
        decreases n - i,
    {
        if p[i] != s[i] {
            assert(p@[i as int] != s@.subrange(0, n as int)[i as int]);
            return false;
        }
        i = i + 1;
    }
    proof {
        assert(p@ =~= s@.subrange(0, n as int));
    }
    true
}

/// Whether `x` is an invokable name matching `prefix`, given the names
/// `entries` found on the executable path: a builtin's (lower-case) name or
/// one of the found names, beginning with `prefix`.
pub open spec fn is_match(x: Seq<char>, prefix: Seq<char>, entries: Seq<Seq<char>>) -> bool {
    ((exists|b: Builtin| builtin_name(b) == x) || entries.contains(x)) && prefix.is_prefix_of(x)
}

/// The invokable command names beginning with `prefix`: builtin names plus
/// the names found on the executable path (handed in by the caller),
/// deduplicated and sorted.
pub fn matching_names(prefix: &str, entries: &Vec<String>) -> (r: Vec<String>)
    ensures
        sorted_strict(str_views(r@)),
        forall|x: Seq<char>|
            str_views(r@).contains(x) <==> is_match(x, prefix@, str_views(entries@)),
{
    let pc = chars_of(prefix);
    let mut out: Vec<String> = Vec::new();
    proof {
        assert(str_views(out@) =~= Seq::<Seq<char>>::empty());
    }
    let bs = Builtin::all();
    let nb = bs.len();
    let mut k: usize = 0;
    while k < nb
        invariant
            nb == bs@.len(),
            nb == 5,
            bs@ == seq![Builtin::Cd, Builtin::Exit, Builtin::Echo, Builtin::Pwd, Builtin::Type],
            pc@ == prefix@,
            k <= nb,
            sorted_strict(str_views(out@)),
            forall|x: Seq<char>| #![trigger str_views(out@).contains(x)]
                str_views(out@).contains(x) <==> ((exists|j: int|
                    0 <= j < k && builtin_name(bs@[j]) == x) && prefix@.is_prefix_of(x)),
        decreases nb - k,
    {
        let ghost prev = str_views(out@);
        let name = bs[k].name();
        let nc = chars_of(name.as_str());
        let inserted = is_prefix_chars(&pc, &nc);
        if inserted {
            insert_sorted(&mut out, name);
        }
        proof {
            let ghost cur = str_views(out@);
            assert forall|x: Seq<char>| cur.contains(x) implies ((exists|j: int|
                0 <= j < k + 1 && builtin_name(bs@[j]) == x) && prefix@.is_prefix_of(x)) by {
                if inserted && x == name@ {
                    assert(builtin_name(bs@[k as int]) == x);
                    assert(prefix@.is_prefix_of(x));
                } else {
                    assert(prev.contains(x));
                    let j = choose|j: int| 0 <= j < k && builtin_name(bs@[j]) == x;
                    assert(0 <= j < k + 1 && builtin_name(bs@[j]) == x);
                }
            }
            assert forall|x: Seq<char>|
                ((exists|j: int| 0 <= j < k + 1 && builtin_name(bs@[j]) == x)
                    && prefix@.is_prefix_of(x)) implies cur.contains(x) by {
                let j = choose|j: int| 0 <= j < k + 1 && builtin_name(bs@[j]) == x;
                if j == k {
                    assert(x == name@);
                    assert(inserted);
                    assert(cur.contains(x));
                } else {
                    assert((exists|j2: int| 0 <= j2 < k && builtin_name(bs@[j2]) == x)
                        && prefix@.is_prefix_of(x));
                    assert(prev.contains(x));
                }
            }
        }
        k = k + 1;
    }
    proof {
        assert forall|x: Seq<char>| #![trigger str_views(out@).contains(x)]
            str_views(out@).contains(x) <==> ((exists|b: Builtin| builtin_name(b) == x)
                && prefix@.is_prefix_of(x)) by {
            if (exists|b: Builtin| builtin_name(b) == x) && prefix@.is_prefix_of(x) {
                let b = choose|b: Builtin| builtin_name(b) == x;
                if b == Builtin::Cd {
                    assert(builtin_name(bs@[0]) == x);
                } else if b == Builtin::Exit {
                    assert(builtin_name(bs@[1]) == x);
                } else if b == Builtin::Echo {
                    assert(builtin_name(bs@[2]) == x);
                } else if b == Builtin::Pwd {
                    assert(builtin_name(bs@[3]) == x);
                } else {
                    assert(builtin_name(bs@[4]) == x);
                }
            }
            if str_views(out@).contains(x) {
                let j = choose|j: int| 0 <= j < 5 && builtin_name(bs@[j]) == x;
                assert(builtin_name(bs@[j]) == x);
            }
        }
    }
    let ne = entries.len();
    let mut t: usize = 0;
    while t < ne
        invariant
            ne == entries@.len(),
            pc@ == prefix@,
            t <= ne,
            sorted_strict(str_views(out@)),
            forall|x: Seq<char>| #![trigger str_views(out@).contains(x)]
                str_views(out@).contains(x) <==> (((exists|b: Builtin| builtin_name(b) == x) || (
                exists|j: int| 0 <= j < t && str_views(entries@)[j] == x))
                    && prefix@.is_prefix_of(x)),
        decreases ne - t,
    {
        let ghost prev = str_views(out@);
        let e = entries[t].clone();
        let ec = chars_of(e.as_str());
        let inserted = is_prefix_chars(&pc, &ec);
        if inserted {
            insert_sorted(&mut out, e);
        }
        proof {
            let ghost cur = str_views(out@);
            assert forall|x: Seq<char>| cur.contains(x) implies (((exists|b: Builtin|
                builtin_name(b) == x) || (exists|j: int|
                0 <= j < t + 1 && str_views(entries@)[j] == x)) && prefix@.is_prefix_of(x)) by {
                if inserted && x == e@ {
                    assert(str_views(entries@)[t as int] == x);
                    assert(prefix@.is_prefix_of(x));
                } else {
                    assert(prev.contains(x));
                    if !(exists|b: Builtin| builtin_name(b) == x) {
                        let j = choose|j: int| 0 <= j < t && str_views(entries@)[j] == x;
                        assert(0 <= j < t + 1 && str_views(entries@)[j] == x);
                    }
                }
            }
            assert forall|x: Seq<char>|
                (((exists|b: Builtin| builtin_name(b) == x) || (exists|j: int|
                    0 <= j < t + 1 && str_views(entries@)[j] == x))
                    && prefix@.is_prefix_of(x)) implies cur.contains(x) by {
                if exists|j: int| 0 <= j < t + 1 && str_views(entries@)[j] == x {
                    let j = choose|j: int| 0 <= j < t + 1 && str_views(entries@)[j] == x;
                    if j == t {
                        assert(x == e@);
                        assert(inserted);
                    } else {
                        assert(prev.contains(x));
                    }
                } else {
                    assert(prev.contains(x));
                }
            }
        }
        t = t + 1;
    }
    proof {
        assert forall|x: Seq<char>|
            str_views(out@).contains(x) <==> is_match(x, prefix@, str_views(entries@)) by {
            assert((exists|j: int| 0 <= j < ne && str_views(entries@)[j] == x) == str_views(
                entries@,
            ).contains(x));
        }
    }
    out
}

/// How many leading characters `a` and `b` share.
pub open spec fn lcp_len(a: Seq<char>, b: Seq<char>) -> nat
    decreases a.len(),
{
    if a.len() == 0 || b.len() == 0 || a[0] != b[0] {
        0
    } else {
        1 + lcp_len(a.drop_first(), b.drop_first())
    }
}

/// The longest common prefix of `a` and `b`.
pub open spec fn lcp(a: Seq<char>, b: Seq<char>) -> Seq<char> {
    a.take(lcp_len(a, b) as int)
}

/// The longest common prefix of the first and last element of a batch of
/// names; the empty string for an empty batch. On a batch that is sorted
/// this is the longest common prefix of the whole batch.
pub fn longest_common_prefix(strings: &Vec<String>) -> (r: String)
    ensures
        strings@.len() == 0 ==> r@ == Seq::<char>::empty(),
        strings@.len() > 0 ==> r@ == lcp(strings@[0]@, strings@[strings@.len() - 1]@),
{
    if strings.len() == 0 {
        return String::new();
    }
    let a = chars_of(strings[0].as_str());
    let b = chars_of(strings[strings.len() - 1].as_str());
    let mut k: usize = 0;
    proof {
        assert(a@.skip(0) =~= a@);
        assert(b@.skip(0) =~= b@);
    }
    while k < a.len() && k < b.len() && a[k] == b[k]
        invariant
            a@ == strings@[0]@,
            b@ == strings@[strings@.len() - 1]@,
            k <= a@.len(),
            k <= b@.len(),
            lcp_len(a@, b@) == k + lcp_len(a@.skip(k as int), b@.skip(k as int)),
        decreases a@.len() - k,
    {
        proof {
            assert(a@.skip(k as int)[0] == a@[k as int]);
            assert(b@.skip(k as int)[0] == b@[k as int]);
            assert(a@.skip(k as int).drop_first() =~= a@.skip(k + 1));
            assert(b@.skip(k as int).drop_first() =~= b@.skip(k + 1));
        }
        k = k + 1;
    }
    proof {
        assert(lcp_len(a@.skip(k as int), b@.skip(k as int)) == 0);
        assert(lcp_len(a@, b@) == k);
    }
    let mut v: Vec<char> = Vec::new();
    let mut j: usize = 0;
    while j < k
        invariant
            j <= k,
            k <= a@.len(),
            v@ == a@.take(j as int),
        decreases k - j,
    {
        v.push(a[j]);
        proof {
            assert(a@.take(j as int).push(a@[j as int]) =~= a@.take(j + 1));
        }
        j = j + 1;
    }
    crate::chars::string_from_chars(&v)
}

/// Non-strict lexicographic order.
pub open spec fn lex_le(a: Seq<char>, b: Seq<char>) -> bool {
    lex_lt(a, b) || a == b
}

proof fn lemma_lex_lt_trans(a: Seq<char>, b: Seq<char>, c: Seq<char>)
    requires
        lex_lt(a, b),
        lex_lt(b, c),
    ensures
        lex_lt(a, c),
    decreases a.len() + b.len() + c.len(),
{
    if a.len() == 0 {
    } else {
        assert(b.len() > 0 && c.len() > 0);
        if a[0] == b[0] && b[0] == c[0] {
            lemma_lex_lt_trans(a.drop_first(), b.drop_first(), c.drop_first());
            assert(a[0] == c[0]);
        }
    }
}

/// In a strictly sorted batch, earlier elements come earlier in the order.
pub proof fn lemma_sorted_le(ss: Seq<Seq<char>>, i: int, j: int)
    requires
        sorted_strict(ss),
        0 <= i <= j < ss.len(),
    ensures
        lex_le(ss[i], ss[j]),
    decreases j - i,
{
    if i < j {
        lemma_sorted_le(ss, i + 1, j);
        if i + 1 < j || ss[i + 1] != ss[j] {
            if lex_lt(ss[i + 1], ss[j]) {
                lemma_lex_lt_trans(ss[i], ss[i + 1], ss[j]);
            }
        }
    }
}

proof fn lemma_lcp_len_le(a: Seq<char>, b: Seq<char>)
    ensures
        lcp_len(a, b) <= a.len(),
        lcp_len(a, b) <= b.len(),
    decreases a.len(),
{
    if a.len() > 0 && b.len() > 0 && a[0] == b[0] {
        lemma_lcp_len_le(a.drop_first(), b.drop_first());
    }
}

proof fn lemma_lcp_common(a: Seq<char>, b: Seq<char>, k: int)
    requires
        0 <= k < lcp_len(a, b),
    ensures
        a[k] == b[k],
    decreases k,
{
    lemma_lcp_len_le(a, b);
    if k > 0 {
        lemma_lcp_common(a.drop_first(), b.drop_first(), k - 1);
        assert(a[k] == a.drop_first()[k - 1]);
        assert(b[k] == b.drop_first()[k - 1]);
    }
}

/// A name ordered between `a` and `c` shares at least their common prefix.
proof fn lemma_lcp_middle(a: Seq<char>, b: Seq<char>, c: Seq<char>)
    requires
        lex_le(a, b),
        lex_le(b, c),
    ensures
        lcp(a, c).is_prefix_of(b),
    decreases a.len(),
{
    lemma_lcp_len_le(a, c);
    let l = lcp_len(a, c) as int;
    if l == 0 {
        assert(lcp(a, c) =~= b.subrange(0, 0));
    } else if a == b {
        assert(lcp(a, c) =~= b.subrange(0, l));
    } else if b == c {
        assert forall|k: int| 0 <= k < l implies a[k] == c[k] by {
            lemma_lcp_common(a, c, k);
        }
        assert(lcp(a, c) =~= b.subrange(0, l));
    } else {
        assert(lex_lt(a, b) && lex_lt(b, c));
        assert(a.len() > 0 && c.len() > 0 && a[0] == c[0]);
        assert(b.len() > 0);
        assert(a[0] == b[0]) by {
            vstd::utf8::char_u32_cast(a[0], a[0] as u32);
            vstd::utf8::char_u32_cast(b[0], a[0] as u32);
            assert(a[0] as u32 <= b[0] as u32);
            assert(b[0] as u32 <= c[0] as u32);
        }
        assert(lex_lt(a.drop_first(), b.drop_first()));
        assert(lex_lt(b.drop_first(), c.drop_first()));
        lemma_lcp_middle(a.drop_first(), b.drop_first(), c.drop_first());
        let ghost ad = a.drop_first();
        let ghost bd = b.drop_first();
        let ghost cd = c.drop_first();
        assert(lcp_len(a, c) == 1 + lcp_len(ad, cd));
        lemma_lcp_len_le(ad, cd);
        assert(ad.take(l - 1) =~= bd.subrange(0, l - 1));
        assert forall|k: int| 0 <= k < l implies a.take(l)[k] == b.subrange(0, l)[k] by {
            if k > 0 {
                assert(a.take(l)[k] == ad[k - 1]);
                assert(ad[k - 1] == ad.take(l - 1)[k - 1]);
                assert(b.subrange(0, l)[k] == bd[k - 1]);
                assert(bd.subrange(0, l - 1)[k - 1] == bd[k - 1]);
            }
        }
        assert(lcp(a, c) =~= b.subrange(0, l));
    }
}

/// Why completing from the two extremes is sound: in a sorted, deduplicated
/// batch of names, the longest common prefix of the first and last element
/// is a prefix of every element in between.
pub proof fn lemma_sorted_extremes_bound_lcp(ss: Seq<Seq<char>>, i: int)
    requires
        sorted_strict(ss),
        ss.len() > 0,
        0 <= i < ss.len(),
    ensures
        lcp(ss[0], ss[ss.len() - 1]).is_prefix_of(ss[i]),
{
    lemma_sorted_le(ss, 0, i);
    lemma_sorted_le(ss, i, ss.len() - 1);
    lemma_lcp_middle(ss[0], ss[i], ss[ss.len() - 1]);
}

/// Tab-completion state: the prefix that was completed and the names it
/// matched.
#[derive(Debug)]
pub struct Completion {
    prefix: String,
    matches: Vec<String>,
}

impl Completion {
    pub fn new(prefix: String, matches: Vec<String>) -> (r: Completion)
        ensures
            r.prefix() == prefix@,
            r.matches() == str_views(matches@),
    {
        Completion { prefix, matches }
    }

    pub closed spec fn prefix(&self) -> Seq<char> {
        self.prefix@
    }

    pub closed spec fn matches(&self) -> Seq<Seq<char>> {
        str_views(self.matches@)
    }

    pub fn prefix_str(&self) -> (r: &String)
        ensures
            r@ == self.prefix(),
    {
        &self.prefix
    }

    pub fn match_list(&self) -> (r: &Vec<String>)
        ensures
            str_views(r@) == self.matches(),
    {
        &self.matches
    }
}

} // verus!
