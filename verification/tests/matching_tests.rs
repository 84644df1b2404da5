use finsk::matching::filter_programs;
use finsk::matching::sort_programs;

fn chars_of(s: &str) -> Vec<char> {
    s.chars().collect()
}

fn strings_of(lines: &[Vec<char>]) -> Vec<String> {
    lines.iter().map(|l| l.iter().collect()).collect()
}

#[test]
fn empty_pattern_keeps_every_candidate() {
    let progs = vec![chars_of("firefox"), chars_of("ls"), chars_of("cat")];
    let out = filter_programs(&progs, &chars_of(""));
    assert_eq!(strings_of(&out), vec!["firefox", "ls", "cat"]);
}

#[test]
fn pattern_drops_what_does_not_match() {
    let progs = vec![chars_of("firefox"), chars_of("ls"), chars_of("cat")];
    let out = filter_programs(&progs, &chars_of("zzz"));
    assert!(out.is_empty());
}

#[test]
fn pattern_keeps_fuzzy_matches_in_order() {
    let progs = vec![chars_of("firefox"), chars_of("fox"), chars_of("cat")];
    let out = filter_programs(&progs, &chars_of("fx"));
    assert_eq!(strings_of(&out), vec!["firefox", "fox"]);
}

#[test]
fn sort_orders_by_name_length() {
    let progs = vec![chars_of("ccc"), chars_of("a"), chars_of("bb")];
    let out = sort_programs(&progs);
    assert_eq!(strings_of(&out), vec!["a", "bb", "ccc"]);
}

#[test]
fn sort_keeps_equal_lengths_in_their_order() {
    let progs = vec![chars_of("dd"), chars_of("bb"), chars_of("a"), chars_of("cc")];
    let out = sort_programs(&progs);
    assert_eq!(strings_of(&out), vec!["a", "dd", "bb", "cc"]);
}
