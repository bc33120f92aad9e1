//! Pure counting functions over a text buffer: lines, words and bytes.

use vstd::prelude::*;
use crate::is_wspace;

verus! {

/// Number of newline characters among the first `n` characters of `s`.
pub open spec fn newlines_upto(s: Seq<char>, n: int) -> nat
    decreases n,
{
    if n <= 0 {
        0
    } else {
        newlines_upto(s, n - 1) + if s[n - 1] == '\n' { 1nat } else { 0nat }
    }
}

/// Number of newline characters in `s`.
pub open spec fn count_newlines(s: Seq<char>) -> nat {
    newlines_upto(s, s.len() as int)
}

/// Number of lines in `input`: the count of `'\n'` delimiters plus one, so an
/// empty buffer has one line and a trailing newline opens a final empty line.
pub fn line_count(input: &str) -> (r: usize)
    requires
        count_newlines(input@) < usize::MAX,
    ensures
        r == count_newlines(input@) + 1,
{
    let n: usize = input.unicode_len();
    let mut count: usize = 0;
    let mut i: usize = 0;
    while i < n
        invariant
            i <= n,
            n == input@.len(),
            count == newlines_upto(input@, i as int),
            count_newlines(input@) < usize::MAX,
        decreases n - i,
    {
        proof {
            lemma_newlines_mono(input@, i + 1, n as int);
        }
        if input.get_char(i) == '\n' {
            count = count + 1;
        }
        i = i + 1;
    }
    count + 1
}

proof fn lemma_newlines_mono(s: Seq<char>, m: int, n: int)
    requires
        m <= n,
    ensures
        newlines_upto(s, m) <= newlines_upto(s, n),
    decreases n - m,
{
    if m < n {
        lemma_newlines_mono(s, m, n - 1);
    }
}

/// Character `s[i]` begins a word: it is not whitespace and is either the
/// first character or preceded by whitespace.
pub open spec fn is_word_start(s: Seq<char>, i: int) -> bool {
    &&& 0 <= i < s.len()
    &&& !is_wspace(s[i])
    &&& (i == 0 || is_wspace(s[i - 1]))
}

/// Number of word starts among the first `n` characters of `s`.
pub open spec fn words_upto(s: Seq<char>, n: int) -> nat
    decreases n,
{
    if n <= 0 {
        0
    } else {
        words_upto(s, n - 1) + if is_word_start(s, n - 1) { 1nat } else { 0nat }
    }
}

/// Number of words in `s`: maximal runs of non-whitespace characters,
/// counted by their first character.
pub open spec fn count_words(s: Seq<char>) -> nat {
    words_upto(s, s.len() as int)
}

proof fn lemma_words_upto_le(s: Seq<char>, n: int)
    ensures
        words_upto(s, n) <= if n <= 0 { 0 } else { n },
    decreases n,
{
    if n > 0 {
        lemma_words_upto_le(s, n - 1);
    }
}

/// Number of words in `input`: maximal non-whitespace runs, whitespace being
/// space, tab, newline, carriage return, vertical tab or form feed.
pub fn word_count(input: &str) -> (r: usize)
    ensures
        r == count_words(input@),
{
    let n: usize = input.unicode_len();
    let mut count: usize = 0;
    let mut i: usize = 0;
    let mut prev_ws: bool = true;
    while i < n
        invariant
            i <= n,
            n == input@.len(),
            count == words_upto(input@, i as int),
            prev_ws == (i == 0 || is_wspace(input@[i - 1])),
        decreases n - i,
    {
        proof {
            lemma_words_upto_le(input@, n as int);
            lemma_words_mono(input@, i + 1, n as int);
        }
        let c = input.get_char(i);
        let ws = c == ' ' || c == '\t' || c == '\n' || c == '\r' || c == '\u{b}' || c == '\u{c}';
        if !ws && prev_ws {
            count = count + 1;
        }
        prev_ws = ws;
        i = i + 1;
    }
    count
}

proof fn lemma_words_mono(s: Seq<char>, m: int, n: int)
    requires
        m <= n,
    ensures
        words_upto(s, m) <= words_upto(s, n),
    decreases n - m,
{
    if m < n {
        lemma_words_mono(s, m, n - 1);
    }
}

proof fn lemma_word_start_counted(s: Seq<char>, i: int, n: int)
    requires
        is_word_start(s, i),
        i < n,
    ensures
        words_upto(s, n) >= 1,
    decreases n,
{
    if i < n - 1 {
        lemma_word_start_counted(s, i, n - 1);
    }
}

proof fn lemma_nonws_gives_word_start(s: Seq<char>, n: int)
    requires
        exists|i: int| 0 <= i < n && i < s.len() && !is_wspace(s[i]),
    ensures
        exists|j: int| j < n && is_word_start(s, j),
    decreases n,
{
    let i = choose|i: int| 0 <= i < n && i < s.len() && !is_wspace(s[i]);
    if exists|k: int| 0 <= k < i && !is_wspace(s[k]) {
        lemma_nonws_gives_word_start(s, i);
    } else {
        assert(is_word_start(s, i));
    }
}

/// The word count of a text is zero if and only if the text contains no
/// non-whitespace character.
pub proof fn lemma_word_count_zero_iff_all_whitespace(s: Seq<char>)
    ensures
        count_words(s) == 0 <==> (forall|i: int| 0 <= i < s.len() ==> is_wspace(s[i])),
{
    if exists|i: int| 0 <= i < s.len() && !is_wspace(s[i]) {
        lemma_nonws_gives_word_start(s, s.len() as int);
        let j = choose|j: int| j < s.len() && is_word_start(s, j);
        lemma_word_start_counted(s, j, s.len() as int);
    } else {
        lemma_all_ws_zero_words(s, s.len() as int);
    }
}

proof fn lemma_all_ws_zero_words(s: Seq<char>, n: int)
    requires
        forall|i: int| 0 <= i < s.len() ==> is_wspace(s[i]),
    ensures
        words_upto(s, n) == 0,
    decreases n,
{
    if n > 0 {
        lemma_all_ws_zero_words(s, n - 1);
    }
}

/// Number of bytes in the UTF-8 encoding of `input`.
pub fn byte_count(input: &str) -> (r: usize)
    requires
        vstd::utf8::encode_utf8(input@).len() <= usize::MAX,
    ensures
        r == vstd::utf8::encode_utf8(input@).len(),
{
    input.len()
}

} // verus!
