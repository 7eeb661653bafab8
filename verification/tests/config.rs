use mgrep::{run_search, Config};

#[test]
fn build_rejects_missing_query() {
    let result = Config::build_from(None, Some(String::from("poem.txt")), false);
    assert_eq!(result.err(), Some("No query string provided"));
}

#[test]
fn build_rejects_missing_file_path() {
    let result = Config::build_from(Some(String::from("needle")), None, false);
    assert_eq!(result.err(), Some("No file path provided"));
}

#[test]
fn build_keeps_the_resolved_values() {
    let config = Config::build_from(
        Some(String::from("needle")),
        Some(String::from("poem.txt")),
        true,
    )
    .unwrap();
    assert_eq!(config.query, "needle");
    assert_eq!(config.file_path, "poem.txt");
    assert!(config.ignore_case);
}

#[test]
fn run_search_respects_the_case_flag() {
    let contents = "Haystack\nhaystack";
    let exact = Config::build_from(
        Some(String::from("hay")),
        Some(String::from("poem.txt")),
        false,
    )
    .unwrap();
    assert_eq!(vec!["haystack"], run_search(&exact, contents));

    let folded = Config::build_from(
        Some(String::from("hay")),
        Some(String::from("poem.txt")),
        true,
    )
    .unwrap();
    assert_eq!(vec!["Haystack", "haystack"], run_search(&folded, contents));
}
