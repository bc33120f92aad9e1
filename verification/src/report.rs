//! Report rows over counted inputs: building a row per input, combining rows
//! into a total, the shared column width, and right-aligned rendering.

use vstd::prelude::*;
use crate::counters::{count_newlines, count_words, line_count, word_count, byte_count};

verus! {

/// The decimal digit character for `d` in `0..=9`.
pub open spec fn digit_char(d: int) -> char {
    if d == 0 {
        '0'
    } else if d == 1 {
        '1'
    } else if d == 2 {
        '2'
    } else if d == 3 {
        '3'
    } else if d == 4 {
        '4'
    } else if d == 5 {
        '5'
    } else if d == 6 {
        '6'
    } else if d == 7 {
        '7'
    } else if d == 8 {
        '8'
    } else {
        '9'
    }
}

/// The decimal digit characters of `n`, most significant first, with no
/// leading zeros (`0` itself is the single character `'0'`).
pub open spec fn dec_digits(n: int) -> Seq<char>
    decreases n,
{
    if n < 10 {
        seq![digit_char(n)]
    } else {
        dec_digits(n / 10).push(digit_char(n % 10))
    }
}

proof fn lemma_dec_digits_len_ge_1(n: int)
    ensures
        dec_digits(n).len() >= 1,
    decreases n,
{
    if n >= 10 {
        lemma_dec_digits_len_ge_1(n / 10);
    }
}

/// Digit strings never grow faster than the number itself.
proof fn lemma_dec_digits_len_le(n: int)
    requires
        n >= 1,
    ensures
        dec_digits(n).len() <= n,
    decreases n,
{
    if n >= 10 {
        lemma_dec_digits_len_le(n / 10);
    }
}

/// A smaller number never has a longer digit string.
pub proof fn lemma_dec_digits_len_mono(a: int, b: int)
    requires
        0 <= a <= b,
    ensures
        dec_digits(a).len() <= dec_digits(b).len(),
    decreases b,
{
    if b >= 10 && a >= 10 {
        lemma_dec_digits_len_mono(a / 10, b / 10);
    }
}

fn digit_str(d: usize) -> (r: &'static str)
    requires
        d < 10,
    ensures
        r@ == seq![digit_char(d as int)],
{
    proof {
        reveal_strlit("0");
        reveal_strlit("1");
        reveal_strlit("2");
        reveal_strlit("3");
        reveal_strlit("4");
        reveal_strlit("5");
        reveal_strlit("6");
        reveal_strlit("7");
        reveal_strlit("8");
        reveal_strlit("9");
    }
    let r = if d == 0 {
        "0"
    } else if d == 1 {
        "1"
    } else if d == 2 {
        "2"
    } else if d == 3 {
        "3"
    } else if d == 4 {
        "4"
    } else if d == 5 {
        "5"
    } else if d == 6 {
        "6"
    } else if d == 7 {
        "7"
    } else if d == 8 {
        "8"
    } else {
        "9"
    };
    proof {
        assert(r@ =~= seq![digit_char(d as int)]);
    }
    r
}

/// The decimal rendering of `n`.
pub fn usize_to_string(n: usize) -> (r: String)
    ensures
        r@ == dec_digits(n as int),
    decreases n,
{
    if n < 10 {
        digit_str(n).to_owned()
    } else {
        let mut s = usize_to_string(n / 10);
        s.append(digit_str(n % 10));
        proof {
            assert(s@ =~= dec_digits(n as int));
        }
        s
    }
}

/// The number of decimal digits of `n`.
pub fn dec_len(n: usize) -> (r: usize)
    ensures
        r == dec_digits(n as int).len(),
{
    let mut m: usize = n;
    let mut len: usize = 1;
    while m >= 10
        invariant
            len >= 1,
            m <= n,
            len + dec_digits(m as int).len() == dec_digits(n as int).len() + 1,
        decreases m,
    {
        proof {
            lemma_dec_digits_len_le(n as int);
            lemma_dec_digits_len_ge_1(m as int / 10);
        }
        m = m / 10;
        len = len + 1;
    }
    len
}

/// `k` space characters (none when `k` is negative).
pub open spec fn spaces(k: int) -> Seq<char> {
    Seq::new(if k < 0 { 0 } else { k as nat }, |i: int| ' ')
}

/// `s` preceded by enough spaces to reach `width` characters; `s` unchanged
/// when it is already at least that long.
pub open spec fn pad_to(s: Seq<char>, width: int) -> Seq<char> {
    spaces(width - s.len()) + s
}

/// The decimal rendering of `v`, right-aligned to `width`.
pub open spec fn field_text(v: int, width: int) -> Seq<char> {
    pad_to(dec_digits(v), width)
}

/// The right-aligned fields joined by single spaces.
pub open spec fn fields_part(fs: Seq<int>, width: int) -> Seq<char>
    decreases fs.len(),
{
    if fs.len() == 0 {
        Seq::<char>::empty()
    } else if fs.len() == 1 {
        field_text(fs[0], width)
    } else {
        field_text(fs[0], width) + seq![' '] + fields_part(fs.drop_first(), width)
    }
}

/// One row of the report: an input's name and the counts that were requested
/// for it. An absent count was not requested, not zero.
#[derive(Clone, Copy)]
pub struct PrintLine<'a> {
    pub file_name: &'a str,
    pub bytes: Option<usize>,
    pub words: Option<usize>,
    pub lines: Option<usize>,
}

/// The values of the row's present fields, in the fixed order lines, words,
/// bytes.
pub open spec fn present_fields<'a>(p: PrintLine<'a>) -> Seq<int> {
    (if p.lines is Some {
        seq![p.lines->0 as int]
    } else {
        Seq::<int>::empty()
    }) + (if p.words is Some {
        seq![p.words->0 as int]
    } else {
        Seq::<int>::empty()
    }) + (if p.bytes is Some {
        seq![p.bytes->0 as int]
    } else {
        Seq::<int>::empty()
    })
}

/// The rendered row: present fields right-aligned to `width` and joined by
/// single spaces, a space, then the row's label.
pub open spec fn spec_format<'a>(p: PrintLine<'a>, width: int) -> Seq<char> {
    fields_part(present_fields(p), width) + seq![' '] + p.file_name@
}

proof fn lemma_fields_part_snoc(fs: Seq<int>, x: int, width: int)
    requires
        fs.len() >= 1,
    ensures
        fields_part(fs.push(x), width) =~= fields_part(fs, width) + seq![' '] + field_text(
            x,
            width,
        ),
    decreases fs.len(),
{
    let g = fs.push(x);
    assert(g.len() == fs.len() + 1);
    assert(g[0] == fs[0]);
    assert(fields_part(g, width) == field_text(g[0], width) + seq![' '] + fields_part(
        g.drop_first(),
        width,
    ));
    if fs.len() == 1 {
        assert(g.drop_first() =~= seq![x]);
        assert(fields_part(seq![x], width) == field_text(x, width));
    } else {
        lemma_fields_part_snoc(fs.drop_first(), x, width);
        assert(g.drop_first() =~= fs.drop_first().push(x));
    }
}

/// The decimal rendering of `n`, right-aligned to `width` with spaces.
fn padded_number(n: usize, width: usize) -> (r: String)
    ensures
        r@ == field_text(n as int, width as int),
{
    let d = dec_len(n);
    let pad: usize = if d < width {
        width - d
    } else {
        0
    };
    let mut s = String::new();
    let mut j: usize = 0;
    proof {
        reveal_strlit(" ");
    }
    while j < pad
        invariant
            j <= pad,
            s@ =~= spaces(j as int),
            " "@ == seq![' '],
        decreases pad - j,
    {
        s.append(" ");
        j = j + 1;
        proof {
            assert(s@ =~= spaces(j as int));
        }
    }
    let digits = usize_to_string(n);
    s.append(digits.as_str());
    proof {
        assert(s@ =~= field_text(n as int, width as int));
    }
    s
}

/// Renders the fields of one row: each right-aligned to `width`, joined by
/// single spaces.
fn render_fields(fields: &Vec<usize>, width: usize) -> (r: String)
    requires
        fields@.len() >= 1,
    ensures
        r@ == fields_part(fields@.map_values(|v: usize| v as int), width as int),
{
    let ghost fs = fields@.map_values(|v: usize| v as int);
    let mut s = padded_number(fields[0], width);
    let mut i: usize = 1;
    proof {
        reveal_strlit(" ");
        assert(fs.take(1) =~= seq![fs[0]]);
    }
    while i < fields.len()
        invariant
            1 <= i <= fields@.len(),
            fs == fields@.map_values(|v: usize| v as int),
            s@ == fields_part(fs.take(i as int), width as int),
            " "@ == seq![' '],
        decreases fields@.len() - i,
    {
        s.append(" ");
        let t = padded_number(fields[i], width);
        s.append(t.as_str());
        proof {
            lemma_fields_part_snoc(fs.take(i as int), fs[i as int], width as int);
            assert(fs.take(i as int).push(fs[i as int]) =~= fs.take(i + 1));
        }
        i = i + 1;
    }
    proof {
        assert(fs.take(fields@.len() as int) =~= fs);
    }
    s
}

impl<'a> PrintLine<'a> {
    /// A fresh row for `file_name` with no count present yet.
    pub fn new(file_name: &'a str) -> (r: Self)
        ensures
            r.file_name@ == file_name@,
            r.bytes is None,
            r.words is None,
            r.lines is None,
    {
        Self { file_name, bytes: None, words: None, lines: None }
    }

    /// Renders the row: present counts in the order lines, words, bytes, each
    /// right-aligned to `max_length`, joined by single spaces, then the label.
    /// At least one count must be present.
    pub fn format(&self, max_length: usize) -> (r: String)
        requires
            self.lines is Some || self.words is Some || self.bytes is Some,
        ensures
            r@ == spec_format(*self, max_length as int),
    {
        let mut fields: Vec<usize> = Vec::new();
        if let Some(v) = self.lines {
            fields.push(v);
        }
        if let Some(v) = self.words {
            fields.push(v);
        }
        if let Some(v) = self.bytes {
            fields.push(v);
        }
        proof {
            assert(fields@.map_values(|v: usize| v as int) =~= present_fields(*self));
        }
        let mut s = render_fields(&fields, max_length);
        proof {
            reveal_strlit(" ");
        }
        s.append(" ");
        s.append(self.file_name);
        proof {
            assert(s@ =~= spec_format(*self, max_length as int));
        }
        s
    }
}

proof fn lemma_fields_part_len(fs: Seq<int>, width: int)
    requires
        fs.len() >= 1,
        forall|j: int| 0 <= j < fs.len() ==> (#[trigger] dec_digits(fs[j])).len() <= width,
    ensures
        fields_part(fs, width).len() == width * fs.len() + (fs.len() - 1),
    decreases fs.len(),
{
    assert(field_text(fs[0], width).len() == width);
    if fs.len() > 1 {
        lemma_fields_part_len(fs.drop_first(), width);
        assert(width * fs.len() == width * (fs.len() - 1) + width) by (nonlinear_arith);
    }
}

/// The rendered width of a row: with `k` present fields, each of whose digit
/// strings fits in `width`, the part before the label takes `width * k` digit
/// and padding characters plus `k - 1` separating spaces; one more space
/// stands between it and the label.
pub proof fn lemma_render_length<'a>(p: PrintLine<'a>, width: int)
    requires
        present_fields(p).len() >= 1,
        forall|j: int|
            0 <= j < present_fields(p).len() ==> (#[trigger] dec_digits(
                present_fields(p)[j],
            )).len() <= width,
    ensures
        fields_part(present_fields(p), width).len() == width * present_fields(p).len() + (
        present_fields(p).len() - 1),
        spec_format(p, width).len() == width * present_fields(p).len() + (present_fields(p).len()
            - 1) + 1 + p.file_name@.len(),
{
    lemma_fields_part_len(present_fields(p), width);
}

/// Computes the requested counts of `text` into a row labeled `file_name`;
/// a count that was not requested is absent.
pub fn build_row<'a>(file_name: &'a str, text: &str, lines: bool, words: bool, bytes: bool) -> (r:
    PrintLine<'a>)
    requires
        lines ==> count_newlines(text@) < usize::MAX,
        bytes ==> vstd::utf8::encode_utf8(text@).len() <= usize::MAX,
    ensures
        r.file_name@ == file_name@,
        r.lines == if lines {
            Some((count_newlines(text@) + 1) as usize)
        } else {
            None::<usize>
        },
        r.words == if words {
            Some(count_words(text@) as usize)
        } else {
            None::<usize>
        },
        r.bytes == if bytes {
            Some(vstd::utf8::encode_utf8(text@).len() as usize)
        } else {
            None::<usize>
        },
{
    let mut row = PrintLine::new(file_name);
    if lines {
        row.lines = Some(line_count(text));
    }
    if words {
        row.words = Some(word_count(text));
    }
    if bytes {
        row.bytes = Some(byte_count(text));
    }
    row
}

/// The count as a mathematical value; absent stays absent.
pub open spec fn opt_int(o: Option<usize>) -> Option<int> {
    match o {
        Some(v) => Some(v as int),
        None => None,
    }
}

/// Pointwise sum of two optional counts; an absent side contributes nothing,
/// and the sum is present iff at least one side is.
pub open spec fn opt_add(a: Option<int>, b: Option<int>) -> Option<int> {
    match (a, b) {
        (None, None) => None,
        (Some(x), None) => Some(x),
        (None, Some(y)) => Some(y),
        (Some(x), Some(y)) => Some(x + y),
    }
}

/// Sum of a column of optional counts, absent fields contributing nothing.
pub open spec fn opt_sum(vs: Seq<Option<int>>) -> Option<int>
    decreases vs.len(),
{
    if vs.len() == 0 {
        None
    } else {
        opt_add(opt_sum(vs.drop_last()), vs.last())
    }
}

/// The value of an optional count, an absent count counting as zero.
pub open spec fn opt_val(o: Option<int>) -> int {
    match o {
        Some(v) => v,
        None => 0,
    }
}

/// The line counts of the rows, in row order.
pub open spec fn lines_col<'a>(rows: Seq<PrintLine<'a>>) -> Seq<Option<int>> {
    rows.map_values(|p: PrintLine<'a>| opt_int(p.lines))
}

/// The word counts of the rows, in row order.
pub open spec fn words_col<'a>(rows: Seq<PrintLine<'a>>) -> Seq<Option<int>> {
    rows.map_values(|p: PrintLine<'a>| opt_int(p.words))
}

/// The byte counts of the rows, in row order.
pub open spec fn bytes_col<'a>(rows: Seq<PrintLine<'a>>) -> Seq<Option<int>> {
    rows.map_values(|p: PrintLine<'a>| opt_int(p.bytes))
}

/// Every row has the same fields present as the first: in one report all rows
/// are built from the same requested set of counts.
pub open spec fn uniform<'a>(rows: Seq<PrintLine<'a>>) -> bool {
    forall|i: int|
        0 <= i < rows.len() ==> {
            &&& ((#[trigger] rows[i]).lines is Some <==> rows[0].lines is Some)
            &&& (rows[i].words is Some <==> rows[0].words is Some)
            &&& (rows[i].bytes is Some <==> rows[0].bytes is Some)
        }
}

/// Summing optional counts is commutative.
pub proof fn lemma_opt_add_comm(a: Option<int>, b: Option<int>)
    ensures
        opt_add(a, b) == opt_add(b, a),
{
}

/// Summing optional counts is associative.
pub proof fn lemma_opt_add_assoc(a: Option<int>, b: Option<int>, c: Option<int>)
    ensures
        opt_add(opt_add(a, b), c) == opt_add(a, opt_add(b, c)),
{
}

/// Summing two partial totals built from two groups of rows gives the same
/// result as summing all the rows' values directly.
pub proof fn lemma_opt_sum_concat(xs: Seq<Option<int>>, ys: Seq<Option<int>>)
    ensures
        opt_sum(xs + ys) == opt_add(opt_sum(xs), opt_sum(ys)),
    decreases ys.len(),
{
    if ys.len() == 0 {
        assert(xs + ys =~= xs);
    } else {
        lemma_opt_sum_concat(xs, ys.drop_last());
        assert((xs + ys).drop_last() =~= xs + ys.drop_last());
        assert((xs + ys).last() == ys.last());
        lemma_opt_add_assoc(opt_sum(xs), opt_sum(ys.drop_last()), ys.last());
    }
}

proof fn lemma_opt_sum_all_none(vs: Seq<Option<int>>)
    requires
        forall|i: int| 0 <= i < vs.len() ==> vs[i] is None,
    ensures
        opt_sum(vs) is None,
    decreases vs.len(),
{
    if vs.len() > 0 {
        lemma_opt_sum_all_none(vs.drop_last());
    }
}

proof fn lemma_opt_sum_take_le(vs: Seq<Option<int>>, j: int)
    requires
        forall|k: int| 0 <= k < vs.len() ==> vs[k] is Some && vs[k]->0 >= 0,
        0 <= j <= vs.len(),
    ensures
        opt_val(opt_sum(vs.take(j))) <= opt_val(opt_sum(vs)),
    decreases vs.len() - j,
{
    if j == vs.len() {
        assert(vs.take(j) =~= vs);
    } else {
        assert(vs.take(j + 1).drop_last() =~= vs.take(j));
        assert(vs.take(j + 1).last() == vs[j]);
        lemma_opt_sum_take_le(vs, j + 1);
    }
}

/// The seq of optional counts as mathematical values.
spec fn col_ints(col: Seq<Option<usize>>) -> Seq<Option<int>> {
    col.map_values(|o: Option<usize>| opt_int(o))
}

fn sum_column(col: &Vec<Option<usize>>) -> (r: Option<usize>)
    requires
        (forall|i: int| 0 <= i < col@.len() ==> col@[i] is Some) || (forall|i: int|
            0 <= i < col@.len() ==> col@[i] is None),
        opt_sum(col_ints(col@)) is Some ==> opt_sum(col_ints(col@))->0 <= usize::MAX,
    ensures
        opt_int(r) == opt_sum(col_ints(col@)),
{
    let ghost vs = col_ints(col@);
    if col.len() == 0 {
        return None;
    }
    if col[0].is_none() {
        proof {
            lemma_opt_sum_all_none(vs);
        }
        return None;
    }
    let mut sum: usize = 0;
    let mut i: usize = 0;
    while i < col.len()
        invariant
            i <= col@.len(),
            col@.len() >= 1,
            vs == col_ints(col@),
            forall|k: int| 0 <= k < vs.len() ==> vs[k] is Some && vs[k]->0 >= 0,
            forall|k: int| 0 <= k < col@.len() ==> col@[k] is Some,
            sum == opt_val(opt_sum(vs.take(i as int))),
            opt_sum(vs) is Some ==> opt_sum(vs)->0 <= usize::MAX,
        decreases col@.len() - i,
    {
        proof {
            assert(vs.take(i + 1).drop_last() =~= vs.take(i as int));
            assert(vs.take(i + 1).last() == vs[i as int]);
            lemma_opt_sum_take_le(vs, i + 1);
            assert(vs.take(vs.len() as int) =~= vs);
        }
        sum = sum + col[i].unwrap();
        i = i + 1;
    }
    proof {
        assert(vs.take(vs.len() as int) =~= vs);
    }
    Some(sum)
}

fn columns<'a>(rows: &Vec<PrintLine<'a>>) -> (r: (Vec<Option<usize>>, Vec<Option<usize>>, Vec<
    Option<usize>,
>))
    ensures
        r.0@ == rows@.map_values(|p: PrintLine<'a>| p.lines),
        r.1@ == rows@.map_values(|p: PrintLine<'a>| p.words),
        r.2@ == rows@.map_values(|p: PrintLine<'a>| p.bytes),
{
    let mut c0: Vec<Option<usize>> = Vec::new();
    let mut c1: Vec<Option<usize>> = Vec::new();
    let mut c2: Vec<Option<usize>> = Vec::new();
    let mut i: usize = 0;
    while i < rows.len()
        invariant
            i <= rows@.len(),
            c0@ =~= rows@.take(i as int).map_values(|p: PrintLine<'a>| p.lines),
            c1@ =~= rows@.take(i as int).map_values(|p: PrintLine<'a>| p.words),
            c2@ =~= rows@.take(i as int).map_values(|p: PrintLine<'a>| p.bytes),
        decreases rows@.len() - i,
    {
        c0.push(rows[i].lines);
        c1.push(rows[i].words);
        c2.push(rows[i].bytes);
        proof {
            assert(rows@.take(i + 1) =~= rows@.take(i as int).push(rows@[i as int]));
        }
        i = i + 1;
    }
    proof {
        assert(rows@.take(rows@.len() as int) =~= rows@);
    }
    (c0, c1, c2)
}

/// Sums each present count pointwise across the rows into a row labeled
/// `total`; a count absent in the rows is absent in the total.
pub fn combine<'a>(rows: &Vec<PrintLine<'a>>) -> (r: PrintLine<'static>)
    requires
        rows@.len() >= 1,
        uniform(rows@),
        opt_sum(lines_col(rows@)) is Some ==> opt_sum(lines_col(rows@))->0 <= usize::MAX,
        opt_sum(words_col(rows@)) is Some ==> opt_sum(words_col(rows@))->0 <= usize::MAX,
        opt_sum(bytes_col(rows@)) is Some ==> opt_sum(bytes_col(rows@))->0 <= usize::MAX,
    ensures
        r.file_name@ == "total"@,
        opt_int(r.lines) == opt_sum(lines_col(rows@)),
        opt_int(r.words) == opt_sum(words_col(rows@)),
        opt_int(r.bytes) == opt_sum(bytes_col(rows@)),
{
    let (c0, c1, c2) = columns(rows);
    proof {
        assert(col_ints(c0@) =~= lines_col(rows@));
        assert(col_ints(c1@) =~= words_col(rows@));
        assert(col_ints(c2@) =~= bytes_col(rows@));
    }
    let mut total = PrintLine::new("total");
    total.lines = sum_column(&c0);
    total.words = sum_column(&c1);
    total.bytes = sum_column(&c2);
    total
}

/// The largest count present anywhere in the rows, or zero when none is.
pub open spec fn opt_max(m: int, o: Option<int>) -> int {
    if o is Some && o->0 > m {
        o->0
    } else {
        m
    }
}

/// The largest count present in the table, or zero when none is.
pub open spec fn table_max<'a>(rows: Seq<PrintLine<'a>>) -> int
    decreases rows.len(),
{
    if rows.len() == 0 {
        0
    } else {
        let m = table_max(rows.drop_last());
        let p = rows.last();
        opt_max(opt_max(opt_max(m, opt_int(p.lines)), opt_int(p.words)), opt_int(p.bytes))
    }
}

/// The table's largest count bounds every count in it, and is never negative.
pub proof fn lemma_table_max_bounds<'a>(rows: Seq<PrintLine<'a>>)
    ensures
        table_max(rows) >= 0,
        forall|i: int|
            0 <= i < rows.len() ==> {
                &&& (rows[i].lines is Some ==> rows[i].lines->0 <= table_max(rows))
                &&& (rows[i].words is Some ==> rows[i].words->0 <= table_max(rows))
                &&& (rows[i].bytes is Some ==> rows[i].bytes->0 <= table_max(rows))
            },
    decreases rows.len(),
{
    if rows.len() > 0 {
        lemma_table_max_bounds(rows.drop_last());
        assert(forall|i: int| 0 <= i < rows.len() - 1 ==> rows[i] == rows.drop_last()[i]);
    }
}

/// The shared column width of the table: the decimal digit length of the
/// largest count present in any row (including a total row when the caller
/// passes one in).
pub fn column_width<'a>(rows: &Vec<PrintLine<'a>>) -> (w: usize)
    ensures
        w == dec_digits(table_max(rows@)).len(),
        forall|i: int|
            0 <= i < rows@.len() ==> {
                &&& (rows@[i].lines is Some ==> dec_digits(rows@[i].lines->0 as int).len() <= w)
                &&& (rows@[i].words is Some ==> dec_digits(rows@[i].words->0 as int).len() <= w)
                &&& (rows@[i].bytes is Some ==> dec_digits(rows@[i].bytes->0 as int).len() <= w)
            },
{
    let mut m: usize = 0;
    let mut i: usize = 0;
    while i < rows.len()
        invariant
            i <= rows@.len(),
            m == table_max(rows@.take(i as int)),
        decreases rows@.len() - i,
    {
        proof {
            assert(rows@.take(i + 1).drop_last() =~= rows@.take(i as int));
            assert(rows@.take(i + 1).last() == rows@[i as int]);
        }
        if let Some(v) = rows[i].lines {
            if v > m {
                m = v;
            }
        }
        if let Some(v) = rows[i].words {
            if v > m {
                m = v;
            }
        }
        if let Some(v) = rows[i].bytes {
            if v > m {
                m = v;
            }
        }
        i = i + 1;
    }
    proof {
        assert(rows@.take(rows@.len() as int) =~= rows@);
        lemma_table_max_bounds(rows@);
        assert forall|i: int| 0 <= i < rows@.len() implies {
            &&& (rows@[i].lines is Some ==> dec_digits(rows@[i].lines->0 as int).len() <= dec_digits(
                table_max(rows@),
            ).len())
            &&& (rows@[i].words is Some ==> dec_digits(rows@[i].words->0 as int).len() <= dec_digits(
                table_max(rows@),
            ).len())
            &&& (rows@[i].bytes is Some ==> dec_digits(rows@[i].bytes->0 as int).len() <= dec_digits(
                table_max(rows@),
            ).len())
        } by {
            if rows@[i].lines is Some {
                lemma_dec_digits_len_mono(rows@[i].lines->0 as int, table_max(rows@));
            }
            if rows@[i].words is Some {
                lemma_dec_digits_len_mono(rows@[i].words->0 as int, table_max(rows@));
            }
            if rows@[i].bytes is Some {
                lemma_dec_digits_len_mono(rows@[i].bytes->0 as int, table_max(rows@));
            }
        }
    }
    dec_len(m)
}

} // verus!
