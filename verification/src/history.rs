//! Previously entered commands: an ordered list that skips empty lines and
//! immediate duplicates, with numbered rendering. Reading and writing the
//! history file is the surrounding application's job.

use vstd::prelude::*;

use crate::chars::{push_char, string_from_chars};
use crate::command::str_views;
use crate::numbers::{dec_chars, dec_str};

verus! {

use vstd::string::StringExecFns;

/// What `add` does: empty commands and duplicates of the last entry are not
/// recorded.
pub open spec fn add_spec(h: Seq<Seq<char>>, c: Seq<char>) -> Seq<Seq<char>> {
    if c.len() == 0 || (h.len() > 0 && h.last() == c) {
        h
    } else {
        h.push(c)
    }
}

/// `k` spaces.
pub open spec fn spaces(k: nat) -> Seq<char> {
    Seq::new(k, |i: int| ' ')
}

/// The decimal rendering of `n`, right-aligned to at least five columns.
pub open spec fn padded_dec(n: nat) -> Seq<char> {
    if dec_str(n).len() >= 5 {
        dec_str(n)
    } else {
        spaces((5 - dec_str(n).len()) as nat) + dec_str(n)
    }
}

/// One rendered history line: the one-based entry number, a space, the
/// entry, a newline.
pub open spec fn history_line(h: Seq<Seq<char>>, i: int) -> Seq<char> {
    padded_dec((i + 1) as nat) + seq![' '] + h[i] + seq!['\n']
}

/// The rendered lines for entries `start..end`, in order.
pub open spec fn lines_range(h: Seq<Seq<char>>, start: int, end: int) -> Seq<char>
    decreases end - start,
{
    if start >= end {
        Seq::empty()
    } else {
        lines_range(h, start, end - 1) + history_line(h, end - 1)
    }
}

/// What `print` renders: the last `limit` entries (all of them when no limit
/// is given), each numbered by its one-based position in the whole history.
pub open spec fn render_spec(h: Seq<Seq<char>>, limit: Option<usize>) -> Seq<char> {
    let l = match limit {
        Some(l) => l as int,
        None => h.len() as int,
    };
    let start = if l >= h.len() {
        0
    } else {
        h.len() - l
    };
    lines_range(h, start, h.len() as int)
}

/// Previously entered commands, oldest first.
#[derive(Debug)]
pub struct History {
    entries: Vec<String>,
}

impl View for History {
    type V = Seq<Seq<char>>;

    closed spec fn view(&self) -> Seq<Seq<char>> {
        str_views(self.entries@)
    }
}

impl History {
    /// An empty history.
    pub fn new() -> (r: History)
        ensures
            r@ == Seq::<Seq<char>>::empty(),
    {
        let r = History { entries: Vec::new() };
        proof {
            assert(r@ =~= Seq::<Seq<char>>::empty());
        }
        r
    }

    /// A history holding exactly these entries.
    pub fn from_entries(entries: Vec<String>) -> (r: History)
        ensures
            r@ == str_views(entries@),
    {
        History { entries }
    }

    /// Extend with entries read elsewhere (say, a history file), verbatim.
    pub fn append_entries(&mut self, more: Vec<String>)
        ensures
            final(self)@ == old(self)@ + str_views(more@),
    {
        let mut m = more;
        let ghost added = m@;
        self.entries.append(&mut m);
        proof {
            assert(str_views(old(self).entries@ + added) =~= str_views(old(self).entries@)
                + str_views(added));
        }
    }

    pub fn len(&self) -> (r: usize)
        ensures
            r == self@.len(),
    {
        self.entries.len()
    }

    /// Record a command; empty commands and duplicates of the last entry are
    /// not recorded.
    pub fn add(&mut self, command: String)
        ensures
            final(self)@ == add_spec(old(self)@, command@),
    {
        if command.as_str().is_empty() {
            return ;
        }
        if self.entries.len() > 0 {
            let is_duplicate = self.entries[self.entries.len() - 1] == command;
            if is_duplicate {
                return ;
            }
        }
        self.entries.push(command);
        proof {
            assert(final(self)@ =~= add_spec(old(self)@, command@));
        }
    }

    /// The entry at `index`, if there is one.
    pub fn get(&self, index: usize) -> (r: Option<String>)
        ensures
            index < self@.len() ==> (r matches Some(s) && s@ == self@[index as int]),
            index >= self@.len() ==> r is None,
    {
        if index < self.entries.len() {
            Some(self.entries[index].clone())
        } else {
            None
        }
    }

    /// Overwrite the entry at `index`; out-of-range indices change nothing.
    pub fn set(&mut self, index: usize, command: String)
        ensures
            index < old(self)@.len() ==> final(self)@ == old(self)@.update(
                index as int,
                command@,
            ),
            index >= old(self)@.len() ==> final(self)@ == old(self)@,
    {
        if index < self.entries.len() {
            self.entries.set(index, command);
            proof {
                assert(final(self)@ =~= old(self)@.update(index as int, command@));
            }
        }
    }

    /// Forget every entry.
    pub fn clear(&mut self)
        ensures
            final(self)@ == Seq::<Seq<char>>::empty(),
    {
        self.entries = Vec::new();
        proof {
            assert(final(self)@ =~= Seq::<Seq<char>>::empty());
        }
    }

    /// Render the last `limit` entries (all, when no limit is given), one
    /// line each: the one-based entry number right-aligned to five columns,
    /// a space, the entry.
    pub fn print(&self, limit: Option<usize>) -> (r: String)
        ensures
            r@ == render_spec(self@, limit),
    {
        let n = self.entries.len();
        let lim: usize = match limit {
            Some(l) => l,
            None => n,
        };
        let start: usize = if lim >= n {
            0
        } else {
            n - lim
        };
        let mut out = String::new();
        let mut i: usize = start;
        while i < n
            invariant
                n == self.entries@.len(),
                start <= i <= n,
                out@ == lines_range(self@, start as int, i as int),
            decreases n - i,
        {
            let mut line_chars: Vec<char> = Vec::new();
            let num = dec_chars((i + 1) as u64);
            let mut k = num.len();
            while k < 5
                invariant
                    num@.len() <= k <= 5 || (num@.len() > 5 && k == num@.len()),
                    num@ == dec_str((i + 1) as nat),
                    line_chars@ =~= spaces((k - num@.len()) as nat),
                decreases 5 - k,
            {
                line_chars.push(' ');
                k = k + 1;
            }
            let mut num_moved = num;
            line_chars.append(&mut num_moved);
            proof {
                assert(line_chars@ =~= padded_dec((i + 1) as nat));
            }
            let mut line = string_from_chars(&line_chars);
            push_char(&mut line, ' ');
            line.append(self.entries[i].as_str());
            push_char(&mut line, '\n');
            proof {
                assert(line@ =~= history_line(self@, i as int));
                assert(lines_range(self@, start as int, i + 1) == lines_range(
                    self@,
                    start as int,
                    i as int,
                ) + history_line(self@, i as int));
            }
            out.append(line.as_str());
            i = i + 1;
        }
        out
    }
}

} // verus!
