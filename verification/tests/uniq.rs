use rswc::lines::Uniq;

#[test]
fn two_duplicates() {
    let lines = vec!["abc", "abc", "bbc", "aaa", "ddd", "ddd", "abc"];
    let expected = lines.len() - 2;
    let unique_finder = Uniq::from_lines(lines);

    let actual = unique_finder.get_uniq_lines().len();

    assert_eq!(actual, expected);
}

#[test]
fn no_duplicates() {
    let lines = vec!["aaa", "bbb", "ccc", "ddd", "eee", "fff", "ggg"];
    let expected = lines.len();
    let unique_finder = Uniq::from_lines(lines);

    let actual = unique_finder.get_uniq_lines().len();

    assert_eq!(actual, expected);
}

#[test]
fn duplicates_collapse_to_first_occurrence() {
    let unique_finder = Uniq::from_lines(vec!["abc", "abc", "bbc", "aaa", "ddd", "ddd", "abc"]);
    let actual = unique_finder.get_uniq_lines();
    assert_eq!(actual, vec!["abc", "bbc", "aaa", "ddd", "abc"]);
    assert_eq!(actual.len(), 5);
}

#[test]
fn distinct_lines_pass_through_unchanged() {
    let unique_finder = Uniq::from_lines(vec!["aaa", "bbb", "ccc"]);
    let actual = unique_finder.get_uniq_lines();
    assert_eq!(actual, vec!["aaa", "bbb", "ccc"]);
    assert_eq!(actual.len(), 3);
}

#[test]
fn blank_lines_never_open_a_run() {
    // A blank next to anything never triggers a new entry, so only the
    // first line survives here.
    let unique_finder = Uniq::from_lines(vec!["a", "", "", "a", "a"]);
    assert_eq!(unique_finder.get_uniq_lines(), vec!["a"]);
}

#[test]
fn first_line_always_kept() {
    let unique_finder = Uniq::from_lines(vec!["", "x"]);
    let actual = unique_finder.get_uniq_lines();
    assert_eq!(actual.len(), 1);
    assert_eq!(actual[0], "");
}

#[test]
fn split_on_newlines() {
    let unique_finder = Uniq::new("abc\nabc\nbbc");
    assert_eq!(unique_finder.get_uniq_lines(), vec!["abc", "bbc"]);
}

#[test]
fn split_keeps_final_empty_line() {
    // A trailing newline opens a last, empty line; it is blank, so it does
    // not enter the output.
    let unique_finder = Uniq::new("a\nb\n");
    assert_eq!(unique_finder.get_uniq_lines(), vec!["a", "b"]);
}

#[test]
fn empty_input_is_one_blank_line() {
    let unique_finder = Uniq::new("");
    assert_eq!(unique_finder.get_uniq_lines(), vec![""]);
}
