use mgrep::lines::split_lines;
use mgrep::matcher::{find_matches, MatchPolicy};
use mgrep::{search, search_case_insensitive};

#[test]
fn case_sensitive() {
    let query = "peak";
    let contents = "\
Peak Simpsons quote:
If I could just say a few words, 
I'd be a better public speaker.
-Homer Simpson";

    assert_eq!(
        vec!["I'd be a better public speaker."],
        search(query, contents)
    );
}

#[test]
fn case_insensitive() {
    let query = "rUsT";
    let contents = "\
trustworthy
noisy
reliable
ancient
\"Four Words That Describe My Rusty Car\"";

    assert_eq!(
        vec!["trustworthy", "\"Four Words That Describe My Rusty Car\""],
        search_case_insensitive(query, contents)
    );
}

#[test]
fn split_empty_text() {
    assert_eq!(split_lines("").len(), 0);
}

#[test]
fn split_with_trailing_terminator() {
    assert_eq!(vec!["a", "b"], split_lines("a\nb\n"));
}

#[test]
fn split_without_trailing_terminator() {
    assert_eq!(vec!["a", "b"], split_lines("a\nb"));
}

#[test]
fn split_strips_carriage_return_before_line_feed() {
    assert_eq!(vec!["a", "b"], split_lines("a\r\nb"));
}

#[test]
fn split_keeps_lone_carriage_return() {
    assert_eq!(vec!["a\r"], split_lines("a\r"));
}

#[test]
fn split_lone_terminator_yields_one_empty_line() {
    assert_eq!(vec![""], split_lines("\n"));
}

#[test]
fn split_text_without_terminator_is_one_line() {
    assert_eq!(vec!["whole input"], split_lines("whole input"));
}

#[test]
fn empty_query_matches_every_line_exact() {
    assert_eq!(vec!["one", "two", "three"], search("", "one\ntwo\nthree"));
}

#[test]
fn empty_query_matches_every_line_case_insensitive() {
    assert_eq!(
        vec!["one", "two", "three"],
        search_case_insensitive("", "one\ntwo\nthree")
    );
}

#[test]
fn repeated_search_is_identical() {
    let contents = "alpha\nbeta\ngamma\nbet";
    let first_run = search("bet", contents);
    let second_run = search("bet", contents);
    assert_eq!(first_run, second_run);
    let first_ci = search_case_insensitive("BET", contents);
    let second_ci = search_case_insensitive("BET", contents);
    assert_eq!(first_ci, second_ci);
}

#[test]
fn query_longer_than_any_line_matches_nothing() {
    let results = search("much longer than any line", "short\nlines\nonly");
    assert_eq!(results.len(), 0);
    let results_ci =
        search_case_insensitive("much longer than any line", "short\nlines\nonly");
    assert_eq!(results_ci.len(), 0);
}

#[test]
fn query_with_absent_characters_matches_nothing() {
    let results = search("zzz", "short\nlines\nonly");
    assert_eq!(results.len(), 0);
    let results_ci = search_case_insensitive("qqq", "short\nlines\nonly");
    assert_eq!(results_ci.len(), 0);
}

#[test]
fn exact_match_is_case_sensitive() {
    let results = search("Rust", "rust\nRust\nRUST\ntrust in Rust");
    assert_eq!(vec!["Rust", "trust in Rust"], results);
}

#[test]
fn case_insensitive_match_folds_both_operands() {
    let results = search_case_insensitive("RUST", "rust\nRust\nRUST\nnothing");
    assert_eq!(vec!["rust", "Rust", "RUST"], results);
}

#[test]
fn case_insensitive_match_folds_beyond_ascii() {
    let results = search_case_insensitive("bär", "Ein BÄR\nkein Baer");
    assert_eq!(vec!["Ein BÄR"], results);
}

#[test]
fn find_matches_exact_policy() {
    let line_slices = split_lines("abc\nBcd\ncde");
    let results = find_matches("b", &line_slices, MatchPolicy::Exact);
    assert_eq!(vec!["abc"], results);
}

#[test]
fn find_matches_case_insensitive_policy() {
    let line_slices = split_lines("abc\nBcd\ncde");
    let results = find_matches("B", &line_slices, MatchPolicy::CaseInsensitive);
    assert_eq!(vec!["abc", "Bcd"], results);
}
