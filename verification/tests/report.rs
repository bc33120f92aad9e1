use rswc::report::{build_row, column_width, combine, usize_to_string, PrintLine};

#[test]
fn two_files_word_totals_and_alignment() {
    let row1 = build_row("file1", "one two three four five", false, true, false);
    let row2 = build_row("file2", "a b c d e f g", false, true, false);
    assert_eq!(row1.words, Some(5));
    assert_eq!(row2.words, Some(7));

    let mut rows = vec![row1, row2];
    let total = combine(&rows);
    assert_eq!(total.words, Some(12));
    assert_eq!(total.lines, None);
    assert_eq!(total.bytes, None);

    rows.push(total);
    let width = column_width(&rows);
    assert_eq!(width, 2);

    assert_eq!(rows[0].format(width), " 5 file1");
    assert_eq!(rows[1].format(width), " 7 file2");
    assert_eq!(rows[2].format(width), "12 total");
}

#[test]
fn build_row_computes_only_requested_counts() {
    let row = build_row("f", "ab cd\nef", true, true, true);
    assert_eq!(row.lines, Some(2));
    assert_eq!(row.words, Some(3));
    assert_eq!(row.bytes, Some(8));

    let row = build_row("f", "ab cd\nef", true, false, false);
    assert_eq!(row.lines, Some(2));
    assert_eq!(row.words, None);
    assert_eq!(row.bytes, None);
}

#[test]
fn format_emits_fields_in_fixed_order() {
    let mut row = PrintLine::new("name");
    row.lines = Some(3);
    row.words = Some(12);
    row.bytes = Some(7);
    // Each field takes the shared width; one space separates fields and
    // one more stands before the label.
    assert_eq!(row.format(3), "  3  12   7 name");
}

#[test]
fn format_single_row_uses_zero_padding() {
    let mut row = PrintLine::new("file1");
    row.words = Some(5);
    assert_eq!(row.format(0), "5 file1");
}

#[test]
fn format_value_wider_than_width_is_not_truncated() {
    let mut row = PrintLine::new("f");
    row.words = Some(12345);
    assert_eq!(row.format(2), "12345 f");
}

#[test]
fn combine_sums_every_present_field() {
    let row1 = build_row("a", "x\ny z", true, true, true);
    let row2 = build_row("b", "p q r\n\n", true, true, true);
    let rows = vec![row1, row2];
    let total = combine(&rows);
    assert_eq!(total.lines, Some(2 + 3));
    assert_eq!(total.words, Some(3 + 3));
    assert_eq!(total.bytes, Some(5 + 7));
}

#[test]
fn column_width_tracks_largest_value() {
    let mut row1 = PrintLine::new("a");
    row1.bytes = Some(999);
    let mut row2 = PrintLine::new("b");
    row2.bytes = Some(1);
    let rows = vec![row1, row2];
    assert_eq!(column_width(&rows), 3);
}

#[test]
fn combine_is_order_insensitive_and_groupable() {
    let row1 = build_row("a", "x\ny z", true, true, true);
    let row2 = build_row("b", "p q r\n\n", true, true, true);
    let row3 = build_row("c", "one", true, true, true);

    let forward = combine(&vec![row1.clone(), row2.clone(), row3.clone()]);
    let backward = combine(&vec![row3.clone(), row2.clone(), row1.clone()]);
    assert_eq!(forward.lines, backward.lines);
    assert_eq!(forward.words, backward.words);
    assert_eq!(forward.bytes, backward.bytes);

    // Summing a total built from a part equals summing all rows directly.
    let part = combine(&vec![row1, row2]);
    let grouped = combine(&vec![part, row3]);
    assert_eq!(grouped.lines, forward.lines);
    assert_eq!(grouped.words, forward.words);
    assert_eq!(grouped.bytes, forward.bytes);
}

#[test]
fn rendered_width_is_width_per_field_plus_separators() {
    let mut row = PrintLine::new("n");
    row.lines = Some(3);
    row.words = Some(12);
    row.bytes = Some(7);
    let width = 4;
    let rendered = row.format(width);
    let without_label = rendered.strip_suffix(" n").unwrap();
    assert_eq!(without_label.len(), width * 3 + (3 - 1));
}

#[test]
fn decimal_rendering() {
    assert_eq!(usize_to_string(0), "0");
    assert_eq!(usize_to_string(7), "7");
    assert_eq!(usize_to_string(1234567), "1234567");
}
