//! Splitting a text into lines and collapsing consecutive duplicate
//! non-blank lines to their first occurrence.

use vstd::prelude::*;
use crate::counters::{count_newlines, newlines_upto};
use crate::strutil::str_eq;

verus! {

/// The segments of `s` split on the newline character: every `'\n'` closes a
/// segment and opens a new one, so the result holds one segment more than `s`
/// holds newlines, and an empty text is one empty segment.
pub open spec fn split_lines(s: Seq<char>) -> Seq<Seq<char>>
    decreases s.len(),
{
    if s.len() == 0 {
        seq![Seq::<char>::empty()]
    } else {
        let prefix = split_lines(s.drop_last());
        if s.last() == '\n' {
            prefix.push(Seq::<char>::empty())
        } else {
            prefix.update(prefix.len() - 1, prefix.last().push(s.last()))
        }
    }
}

proof fn lemma_split_lines_len_ge_1(s: Seq<char>)
    ensures
        split_lines(s).len() >= 1,
    decreases s.len(),
{
    if s.len() > 0 {
        lemma_split_lines_len_ge_1(s.drop_last());
    }
}

proof fn lemma_newlines_upto_prefix(s: Seq<char>, t: Seq<char>, n: int)
    requires
        n <= s.len(),
        n <= t.len(),
        forall|j: int| 0 <= j < n ==> s[j] == t[j],
    ensures
        newlines_upto(s, n) == newlines_upto(t, n),
    decreases n,
{
    if n > 0 {
        lemma_newlines_upto_prefix(s, t, n - 1);
    }
}

/// Splitting on newlines yields one segment more than the number of newline
/// delimiters: the line count of a text is the length of its line sequence.
pub proof fn lemma_split_lines_count(s: Seq<char>)
    ensures
        split_lines(s).len() == count_newlines(s) + 1,
    decreases s.len(),
{
    if s.len() > 0 {
        lemma_split_lines_count(s.drop_last());
        lemma_newlines_upto_prefix(s, s.drop_last(), s.len() - 1);
        lemma_split_lines_len_ge_1(s.drop_last());
    }
}

/// The subsequence of lines that open a new run: the first line always, and
/// after it every line that differs from its predecessor while both are
/// non-blank. Two equal consecutive non-blank lines collapse to one; a blank
/// line never triggers a new entry, in either position of the pair.
pub open spec fn uniq_lines_seq(ls: Seq<Seq<char>>) -> Seq<Seq<char>>
    decreases ls.len(),
{
    if ls.len() <= 1 {
        ls
    } else {
        let prev = uniq_lines_seq(ls.drop_last());
        let a = ls[ls.len() - 2];
        let b = ls.last();
        if a.len() > 0 && b.len() > 0 && a != b {
            prev.push(b)
        } else {
            prev
        }
    }
}

/// The filtered sequence is never empty and always starts with the input's
/// first line.
pub proof fn lemma_uniq_lines_first(ls: Seq<Seq<char>>)
    requires
        ls.len() >= 1,
    ensures
        uniq_lines_seq(ls).len() >= 1,
        uniq_lines_seq(ls)[0] == ls[0],
    decreases ls.len(),
{
    if ls.len() > 1 {
        lemma_uniq_lines_first(ls.drop_last());
    }
}

/// A text split into its lines, ready to be filtered for consecutive
/// duplicates.
pub struct Uniq<'a> {
    lines: Vec<&'a str>,
}

impl<'a> View for Uniq<'a> {
    type V = Seq<Seq<char>>;

    closed spec fn view(&self) -> Seq<Seq<char>> {
        self.lines@.map_values(|s: &str| s@)
    }
}

impl<'a> Uniq<'a> {
    /// Splits `input` on the newline character; the final fragment is a line
    /// even without a trailing delimiter.
    pub fn new(input: &'a str) -> (r: Self)
        ensures
            r@ == split_lines(input@),
    {
        let n = input.unicode_len();
        let mut lines: Vec<&'a str> = Vec::new();
        let mut start: usize = 0;
        let mut i: usize = 0;
        proof {
            assert(split_lines(input@.take(0)) =~~= lines@.map_values(|s: &str| s@).push(
                input@.subrange(0, 0),
            ));
        }
        while i < n
            invariant
                start <= i <= n,
                n == input@.len(),
                split_lines(input@.take(i as int)) == lines@.map_values(|s: &str| s@).push(
                    input@.subrange(start as int, i as int),
                ),
            decreases n - i,
        {
            let ghost old_map = lines@.map_values(|s: &str| s@);
            let ghost seg0 = input@.subrange(start as int, i as int);
            proof {
                assert(input@.take(i + 1).drop_last() =~= input@.take(i as int));
                assert(input@.take(i + 1).last() == input@[i as int]);
            }
            let c = input.get_char(i);
            if c == '\n' {
                let seg = input.substring_char(start, i);
                lines.push(seg);
                start = i + 1;
                proof {
                    assert(split_lines(input@.take(i + 1)) == split_lines(input@.take(
                        i as int,
                    )).push(Seq::<char>::empty()));
                    assert(lines@.map_values(|s: &str| s@) =~= old_map.push(seg0));
                    assert(split_lines(input@.take(i + 1)) =~~= lines@.map_values(
                        |s: &str| s@,
                    ).push(input@.subrange(i + 1, i + 1)));
                }
            } else {
                proof {
                    let prefix = split_lines(input@.take(i as int));
                    assert(split_lines(input@.take(i + 1)) == prefix.update(
                        prefix.len() - 1,
                        prefix.last().push(input@[i as int]),
                    ));
                    assert(prefix.last() == seg0);
                    assert(seg0.push(input@[i as int]) =~= input@.subrange(start as int, i + 1));
                    assert(split_lines(input@.take(i + 1)) =~~= old_map.push(
                        input@.subrange(start as int, i + 1),
                    ));
                }
            }
            i = i + 1;
        }
        let ghost old_map = lines@.map_values(|s: &str| s@);
        let last = input.substring_char(start, n);
        lines.push(last);
        proof {
            assert(input@.take(n as int) =~= input@);
            assert(input@.take(n as int) == input@);
            assert(lines@.map_values(|s: &str| s@) =~= old_map.push(
                input@.subrange(start as int, n as int),
            ));
            assert(lines@.map_values(|s: &str| s@) =~~= split_lines(input@));
        }
        Uniq { lines }
    }

    /// Wraps an already split sequence of lines.
    pub fn from_lines(lines: Vec<&'a str>) -> (r: Self)
        ensures
            r@ == lines@.map_values(|s: &str| s@),
    {
        Uniq { lines }
    }

    /// The lines that open a new run: the first line, and every later line
    /// that differs from its predecessor while both are non-blank. The result
    /// is never empty and starts with the first line.
    pub fn get_uniq_lines(&self) -> (r: Vec<&'a str>)
        requires
            self@.len() >= 1,
        ensures
            r@.map_values(|s: &str| s@) == uniq_lines_seq(self@),
            r@.len() >= 1,
            r@[0]@ == self@[0],
    {
        let mut out: Vec<&'a str> = Vec::new();
        out.push(self.lines[0]);
        let mut i: usize = 1;
        proof {
            assert(out@.map_values(|s: &str| s@) =~= uniq_lines_seq(self@.take(1)));
        }
        while i < self.lines.len()
            invariant
                1 <= i <= self@.len(),
                self@.len() == self.lines@.len(),
                self@ == self.lines@.map_values(|s: &str| s@),
                out@.map_values(|s: &str| s@) == uniq_lines_seq(self@.take(i as int)),
                out@.len() >= 1,
            decreases self@.len() - i,
        {
            proof {
                assert(self@.take(i + 1).drop_last() =~= self@.take(i as int));
                assert(self@.take(i + 1).last() == self@[i as int]);
                assert(self@.take(i + 1)[i - 1] == self@[i - 1]);
            }
            let prev = self.lines[i - 1];
            let cur = self.lines[i];
            if !prev.is_empty() && !cur.is_empty() && !str_eq(prev, cur) {
                out.push(cur);
                proof {
                    assert(out@.map_values(|s: &str| s@) =~= uniq_lines_seq(
                        self@.take(i as int),
                    ).push(self@[i as int]));
                }
            }
            i = i + 1;
        }
        proof {
            assert(self@.take(self@.len() as int) =~= self@);
            lemma_uniq_lines_first(self@);
        }
        out
    }
}

} // verus!
