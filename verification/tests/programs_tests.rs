use finsk::programs::dedup_lines;
use finsk::programs::parse_programs;
use finsk::programs::split_into_lines;

fn chars_of(s: &str) -> Vec<char> {
    s.chars().collect()
}

fn strings_of(lines: &[Vec<char>]) -> Vec<String> {
    lines.iter().map(|l| l.iter().collect()).collect()
}

#[test]
fn split_on_line_feeds() {
    let out = split_into_lines(&chars_of("ls\ncat\ngrep"));
    assert_eq!(strings_of(&out), vec!["ls", "cat", "grep"]);
}

#[test]
fn split_drops_the_final_line_feed() {
    let out = split_into_lines(&chars_of("ls\ncat\n"));
    assert_eq!(strings_of(&out), vec!["ls", "cat"]);
}

#[test]
fn split_keeps_blank_lines_in_the_middle() {
    let out = split_into_lines(&chars_of("a\n\nb"));
    assert_eq!(strings_of(&out), vec!["a", "", "b"]);
}

#[test]
fn split_strips_a_carriage_return_before_the_feed() {
    let out = split_into_lines(&chars_of("a\r\nb\r\n"));
    assert_eq!(strings_of(&out), vec!["a", "b"]);
}

#[test]
fn split_keeps_a_lone_trailing_carriage_return() {
    let out = split_into_lines(&chars_of("a\r"));
    assert_eq!(strings_of(&out), vec!["a\r"]);
}

#[test]
fn split_of_empty_input_is_empty() {
    let out = split_into_lines(&chars_of(""));
    assert!(out.is_empty());
}

#[test]
fn dedup_keeps_first_occurrences_in_order() {
    let lines = vec![chars_of("ls"), chars_of("cat"), chars_of("ls"), chars_of("vi")];
    let out = dedup_lines(&lines);
    assert_eq!(strings_of(&out), vec!["ls", "cat", "vi"]);
}

#[test]
fn parse_splits_and_dedupes() {
    let out = parse_programs(&chars_of("ls\ncat\nls\ngrep\ncat\n"));
    assert_eq!(strings_of(&out), vec!["ls", "cat", "grep"]);
}
