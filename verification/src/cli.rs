//! Parsed command line: which counts are requested and which files to read.
//!
//! The grammar: `-c`/`--bytes`, `-w`/`--words` and `-l`/`--lines` switch a
//! count on; any other argument starting with `-` (of at least two
//! characters) is an unknown option and rejects the whole line; everything
//! else names a file. At least one count must be requested. The first
//! argument is the program name and is ignored.

use vstd::prelude::*;
use crate::strutil::str_eq;

verus! {

/// The argument requests the byte count.
pub open spec fn is_bytes_flag(a: Seq<char>) -> bool {
    a == "-c"@ || a == "--bytes"@
}

/// The argument requests the word count.
pub open spec fn is_words_flag(a: Seq<char>) -> bool {
    a == "-w"@ || a == "--words"@
}

/// The argument requests the line count.
pub open spec fn is_lines_flag(a: Seq<char>) -> bool {
    a == "-l"@ || a == "--lines"@
}

/// The argument is one of the six accepted flags.
pub open spec fn is_flag(a: Seq<char>) -> bool {
    is_bytes_flag(a) || is_words_flag(a) || is_lines_flag(a)
}

/// The argument looks like an option: at least two characters, the first a
/// dash.
pub open spec fn is_opt_like(a: Seq<char>) -> bool {
    a.len() >= 2 && a[0] == '-'
}

/// The argument looks like an option but is none of the accepted flags.
pub open spec fn is_unknown_opt(a: Seq<char>) -> bool {
    is_opt_like(a) && !is_flag(a)
}

/// The argument names a file: anything that does not look like an option.
pub open spec fn is_file_arg(a: Seq<char>) -> bool {
    !is_opt_like(a)
}

/// The file-naming arguments, in order.
pub open spec fn files_of(args: Seq<Seq<char>>) -> Seq<Seq<char>>
    decreases args.len(),
{
    if args.len() == 0 {
        Seq::<Seq<char>>::empty()
    } else {
        let prefix = files_of(args.drop_last());
        if is_file_arg(args.last()) {
            prefix.push(args.last())
        } else {
            prefix
        }
    }
}

/// Parsed command line arguments: the requested counts and the files to
/// count, reachable via their getters.
pub struct Cli {
    pub files: Vec<String>,
    pub bytes: bool,
    pub words: bool,
    pub lines: bool,
}

impl Cli {
    /// A getter for the `bytes` CLI flag.
    pub fn bytes(&self) -> (r: bool)
        ensures
            r == self.bytes,
    {
        self.bytes
    }

    /// A getter for the `words` CLI flag.
    pub fn words(&self) -> (r: bool)
        ensures
            r == self.words,
    {
        self.words
    }

    /// A getter for the `lines` CLI flag.
    pub fn lines(&self) -> (r: bool)
        ensures
            r == self.lines,
    {
        self.lines
    }

    /// A getter for the file names passed as command line arguments.
    ///
    /// Whether the names refer to readable files is not validated here.
    pub fn files(&self) -> (r: &Vec<String>)
        ensures
            r == self.files,
    {
        &self.files
    }

    /// Parses a full argument list, the program name first. `None` when an
    /// unknown option occurs or when no count at all is requested.
    pub fn parse_from(args: Vec<String>) -> (r: Option<Cli>)
        ensures
            r is Some <==> {
                &&& args@.len() >= 1
                &&& (forall|j: int|
                    1 <= j < args@.len() ==> !is_unknown_opt(#[trigger] args.deep_view()[j]))
                &&& (exists|j: int| 1 <= j < args@.len() && is_flag(#[trigger] args.deep_view()[j]))
            },
            r is Some ==> {
                &&& r->0.bytes == (exists|j: int|
                    1 <= j < args@.len() && is_bytes_flag(#[trigger] args.deep_view()[j]))
                &&& r->0.words == (exists|j: int|
                    1 <= j < args@.len() && is_words_flag(#[trigger] args.deep_view()[j]))
                &&& r->0.lines == (exists|j: int|
                    1 <= j < args@.len() && is_lines_flag(#[trigger] args.deep_view()[j]))
                &&& r->0.files.deep_view() == files_of(
                    args.deep_view().subrange(1, args@.len() as int),
                )
            },
    {
        let ghost d = args.deep_view();
        if args.len() == 0 {
            return None;
        }
        let mut files: Vec<String> = Vec::new();
        let mut bytes: bool = false;
        let mut words: bool = false;
        let mut lines: bool = false;
        let mut i: usize = 1;
        proof {
            assert(files.deep_view() =~~= files_of(d.subrange(1, 1)));
        }
        while i < args.len()
            invariant
                1 <= i <= args@.len(),
                d == args.deep_view(),
                d.len() == args@.len(),
                bytes == (exists|j: int| 1 <= j < i && is_bytes_flag(#[trigger] d[j])),
                words == (exists|j: int| 1 <= j < i && is_words_flag(#[trigger] d[j])),
                lines == (exists|j: int| 1 <= j < i && is_lines_flag(#[trigger] d[j])),
                forall|j: int| 1 <= j < i ==> !is_unknown_opt(#[trigger] d[j]),
                files.deep_view() == files_of(d.subrange(1, i as int)),
            decreases args@.len() - i,
        {
            let ghost fprev = files.deep_view();
            proof {
                reveal_strlit("-c");
                reveal_strlit("--bytes");
                reveal_strlit("-w");
                reveal_strlit("--words");
                reveal_strlit("-l");
                reveal_strlit("--lines");
                assert("-c"@.len() == 2 && "-c"@[0] == '-' && "-c"@[1] == 'c');
                assert("-w"@.len() == 2 && "-w"@[0] == '-' && "-w"@[1] == 'w');
                assert("-l"@.len() == 2 && "-l"@[0] == '-' && "-l"@[1] == 'l');
                assert("--bytes"@.len() == 7 && "--bytes"@[0] == '-' && "--bytes"@[2] == 'b');
                assert("--words"@.len() == 7 && "--words"@[0] == '-' && "--words"@[2] == 'w');
                assert("--lines"@.len() == 7 && "--lines"@[0] == '-' && "--lines"@[2] == 'l');
                assert(d.subrange(1, i + 1).drop_last() =~= d.subrange(1, i as int));
                assert(d.subrange(1, i + 1).last() == d[i as int]);
                assert(args@[i as int]@ == d[i as int]);
            }
            let a = args[i].as_str();
            if str_eq(a, "-c") || str_eq(a, "--bytes") {
                bytes = true;
            } else if str_eq(a, "-w") || str_eq(a, "--words") {
                words = true;
            } else if str_eq(a, "-l") || str_eq(a, "--lines") {
                lines = true;
            } else {
                let opt_like = a.unicode_len() >= 2 && a.get_char(0) == '-';
                if opt_like {
                    proof {
                        assert(is_unknown_opt(d[i as int]));
                    }
                    return None;
                }
                files.push(args[i].clone());
                proof {
                    assert(files.deep_view() =~~= fprev.push(d[i as int]));
                }
            }
            proof {
                assert(files.deep_view() =~~= files_of(d.subrange(1, i + 1)));
            }
            i = i + 1;
        }
        if !(bytes || words || lines) {
            return None;
        }
        Some(Cli { files, bytes, words, lines })
    }
}

} // verus!
