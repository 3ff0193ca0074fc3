//! Physical lines of a text buffer.

use vstd::prelude::*;

verus! {

/// One past the first line feed of `s` at or after `from`, or `s.len()`
/// where no line feed follows.
pub open spec fn line_end(s: Seq<char>, from: int) -> int
    decreases s.len() - from,
{
    if from < 0 || from >= s.len() {
        s.len() as int
    } else if s[from] == '\n' {
        from + 1
    } else {
        line_end(s, from + 1)
    }
}

/// The first raw line of `s`: everything up to and including the first line
/// feed, or all of `s` where it holds none.
pub open spec fn first_line(s: Seq<char>) -> Seq<char> {
    s.subrange(0, line_end(s, 0))
}

/// What follows the first raw line of `s`.
pub open spec fn after_first_line(s: Seq<char>) -> Seq<char> {
    s.subrange(line_end(s, 0), s.len() as int)
}

/// The raw lines of `s`, each with its line feed. The empty text has no
/// line; a text that does not end in a line feed ends in a line without one.
pub open spec fn split_lines(s: Seq<char>) -> Seq<Seq<char>>
    decreases s.len(),
{
    if s.len() == 0 {
        Seq::empty()
    } else {
        proof {
            lemma_line_end(s, 0);
        }
        seq![first_line(s)] + split_lines(after_first_line(s))
    }
}

/// Where a line ends: after its first line feed, which is its only one.
pub proof fn lemma_line_end(s: Seq<char>, from: int)
    requires
        0 <= from < s.len(),
    ensures
        from < line_end(s, from) <= s.len(),
        forall|i: int| from <= i < line_end(s, from) - 1 ==> #[trigger] s[i] != '\n',
        line_end(s, from) < s.len() ==> s[line_end(s, from) - 1] == '\n',
    decreases s.len() - from,
{
    if s[from] != '\n' {
        if from + 1 < s.len() {
            lemma_line_end(s, from + 1);
        } else {
            assert(line_end(s, from + 1) == s.len());
        }
    }
}

/// Iterator that yields raw lines, each including its line feed.
pub struct LineIter<'a> {
    pub remaining: &'a [char],
}

impl<'a> LineIter<'a> {
    pub fn new(s: &'a [char]) -> (it: Self)
        ensures
            it.remaining@ == s@,
    {
        LineIter { remaining: s }
    }

    /// The next raw line, or `None` at the end of the text.
    pub fn next(&mut self) -> (line: Option<&'a [char]>)
        ensures
            old(self).remaining@.len() == 0 ==> line.is_none() && final(self).remaining@
                == old(self).remaining@,
            old(self).remaining@.len() > 0 ==> line.is_some() && line.unwrap()@ == first_line(
                old(self).remaining@,
            ) && final(self).remaining@ == after_first_line(old(self).remaining@),
    {
        let s = self.remaining;
        if s.len() == 0 {
            return None;
        }
        let mut end: usize = 0;
        while end < s.len() && s[end] != '\n'
            invariant
                end <= s.len(),
                line_end(s@, 0) == line_end(s@, end as int),
            decreases s.len() - end,
        {
            end = end + 1;
        }
        if end < s.len() {
            end = end + 1;
        }
        let line = &s[0..end];
        self.remaining = &s[end..s.len()];
        Some(line)
    }
}

} // verus!
