//! Verified text-counting and line-filtering primitives: line, word and byte
//! counts over a text buffer, an aligned tabular report over several inputs,
//! and a filter that collapses consecutive duplicate non-blank lines.

pub mod cli;
pub mod counters;
pub mod lines;
pub mod report;
pub mod strutil;

use vstd::prelude::*;

verus! {

/// A character counts as whitespace for word counting: space, tab, newline,
/// carriage return, vertical tab or form feed.
pub open spec fn is_wspace(c: char) -> bool {
    c == ' ' || c == '\t' || c == '\n' || c == '\r' || c == '\u{b}' || c == '\u{c}'
}

} // verus!
