use rswc::counters::{byte_count, line_count, word_count};

#[test]
fn line_count_cases() {
    assert_eq!(line_count("Hello, world!"), 1);
    assert_eq!(line_count("Hello\n world!"), 2);
    assert_eq!(line_count("\nHello,\n world!"), 3);
    // Delimiter count plus one: empty input is one line, and a lone
    // newline delimits two.
    assert_eq!(line_count(""), 1);
    assert_eq!(line_count("\n"), 2);
    assert_eq!(line_count("a\n"), 2);
}

#[test]
fn word_count_cases() {
    assert_eq!(word_count(""), 0);
    assert_eq!(word_count(" "), 0);
    assert_eq!(word_count("Hello world!"), 2);
    assert_eq!(word_count("Hello, world!\nGoodbye!"), 3);
    assert_eq!(word_count(" \t\r\n "), 0);
    assert_eq!(word_count("  a  b  "), 2);
}

#[test]
fn byte_count_cases() {
    assert_eq!(byte_count(""), 0);
    assert_eq!(byte_count("Hello, world! How are you feeling today?"), 40);
    assert_eq!(byte_count(" "), 1);
    assert_eq!(byte_count("\n\n\n"), 3);
    // Three characters of two bytes each.
    assert_eq!(byte_count("\u{e6}\u{f8}\u{e5}"), 6);
}

#[test]
fn hello_goodbye_scenario() {
    let text = "Hello, world!\n\n\nGoodbye!";
    assert_eq!(line_count(text), 4);
    assert_eq!(word_count(text), 3);
}
