use rswc::cli::Cli;

fn parse(args: &[&str]) -> Cli {
    let owned: Vec<String> = args.iter().map(|a| a.to_string()).collect();
    Cli::parse_from(owned).expect("arguments should parse")
}

#[test]
fn bytes_short_flag() {
    let args = parse(&["", "-c"]);
    assert!(args.bytes());
}

#[test]
fn bytes_long_flag() {
    let args = parse(&["", "--bytes"]);
    assert!(args.bytes());
}

#[test]
fn words_short_flag() {
    let args = parse(&["", "-w"]);
    assert!(args.words());
}

#[test]
fn words_long_flag() {
    let args = parse(&["", "--words"]);
    assert!(args.words());
}

#[test]
fn lines_short_flag() {
    let args = parse(&["", "-l"]);
    assert!(args.lines());
}

#[test]
fn lines_long_flag() {
    let args = parse(&["", "--lines"]);
    assert!(args.lines());
}

#[test]
fn multiple_flags() {
    let args = parse(&["", "-c", "-l", "-w"]);
    assert!(args.bytes());
    assert!(args.lines());
    assert!(args.words());
}

#[test]
fn single_file() {
    // flag is not important, but must be present
    let args = parse(&["", "-c", "file.txt"]);
    assert_eq!(args.files(), &["file.txt"]);
}

#[test]
fn multiple_files() {
    // flag is not important, but must be present
    let args = parse(&["", "-c", "file.txt", "another_file.rs"]);
    assert_eq!(args.files(), &["file.txt", "another_file.rs"]);
}

#[test]
fn flags_and_files() {
    let args = parse(&["", "-c", "-w", "-l", "file.txt", "newfile.txt", "main.rs"]);
    assert_eq!(args.files(), &["file.txt", "newfile.txt", "main.rs"]);
    assert!(args.bytes());
    assert!(args.words());
    assert!(args.lines());
}

#[test]
fn unset_flags_stay_false() {
    let args = parse(&["", "-c"]);
    assert!(!args.words());
    assert!(!args.lines());
    assert!(args.files().is_empty());
}

#[test]
fn no_flag_is_rejected() {
    let owned: Vec<String> = vec!["".to_string(), "file.txt".to_string()];
    assert!(Cli::parse_from(owned).is_none());
}

#[test]
fn unknown_option_is_rejected() {
    let owned: Vec<String> = vec!["".to_string(), "-c".to_string(), "-x".to_string()];
    assert!(Cli::parse_from(owned).is_none());
    let owned: Vec<String> = vec!["".to_string(), "--verbose".to_string()];
    assert!(Cli::parse_from(owned).is_none());
}

#[test]
fn empty_argument_list_is_rejected() {
    assert!(Cli::parse_from(Vec::new()).is_none());
}

#[test]
fn lone_dash_is_a_file() {
    let args = parse(&["", "-l", "-"]);
    assert_eq!(args.files(), &["-"]);
    assert!(args.lines());
}
