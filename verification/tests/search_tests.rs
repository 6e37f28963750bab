use minigrep::contains_substring;
use minigrep::search;
use minigrep::search_case_insensitive;
use minigrep::split_lines;

#[test]
fn case_sensitive() {
    let query = "duct";
    let contents = "\
Rust:
safe, fast, productive.
Pick three.
Duct tape.";

    assert_eq!(vec!["safe, fast, productive."], search(query, contents));
}

#[test]
fn case_insensitive() {
    let query = "rUsT";
    let contents = "\
Rust:
safe, fast, productive.
Pick three.
Trust me.";

    assert_eq!(
        vec!["Rust:", "Trust me."],
        search_case_insensitive(query, contents)
    );
}

#[test]
fn case_insensitive_only_matching_lines() {
    let query = "rUsT";
    let contents = "\
Rust:
safe, fast, productive.
Pick three.
Duct tape.";

    assert_eq!(vec!["Rust:"], search_case_insensitive(query, contents));
}

#[test]
fn results_contain_query() {
    let contents = "one two\nthree\ntwo two\nfour";
    for line in search("two", contents) {
        assert!(line.contains("two"));
    }
}

#[test]
fn case_insensitive_superset_by_count() {
    let query = "Rust";
    let contents = "\
Rust:
safe, fast, productive.
Pick three.
Trust me.
rust again";

    let sensitive = search(query, contents);
    let insensitive = search_case_insensitive(query, contents);
    assert!(sensitive.len() <= insensitive.len());
    assert_eq!(vec!["Rust:"], sensitive);
    assert_eq!(vec!["Rust:", "Trust me.", "rust again"], insensitive);
}

#[test]
fn empty_query_returns_all_lines() {
    let contents = "alpha\nbeta\ngamma";
    assert_eq!(vec!["alpha", "beta", "gamma"], search("", contents));
    assert_eq!(
        vec!["alpha", "beta", "gamma"],
        search_case_insensitive("", contents)
    );
}

#[test]
fn search_twice_yields_identical_results() {
    let query = "pro";
    let contents = "prologue\nepilogue\nproper\n";
    let first = search(query, contents);
    let second = search(query, contents);
    assert_eq!(first, second);
    let first_ci = search_case_insensitive("PRO", contents);
    let second_ci = search_case_insensitive("PRO", contents);
    assert_eq!(first_ci, second_ci);
}

#[test]
fn empty_contents_has_no_lines() {
    assert!(search("x", "").is_empty());
    assert!(search("", "").is_empty());
    assert!(search_case_insensitive("x", "").is_empty());
}

#[test]
fn trailing_terminator_opens_no_line() {
    assert_eq!(vec!["a", "b"], search("", "a\nb\n"));
    assert_eq!(vec![""], search("", "\n"));
    assert_eq!(vec!["", ""], search("", "\n\n"));
}

#[test]
fn split_lines_keeps_order() {
    assert_eq!(vec!["a", "b", "c"], split_lines("a\nb\nc"));
    assert_eq!(vec!["", "mid", ""], split_lines("\nmid\n\n"));
    assert!(split_lines("").is_empty());
}

#[test]
fn contains_substring_examples() {
    assert!(contains_substring("safe, fast, productive.", "fast"));
    assert!(!contains_substring("safe, fast, productive.", "Fast"));
    assert!(contains_substring("anything", ""));
    assert!(!contains_substring("", "a"));
    assert!(contains_substring("aaab", "aab"));
}

#[test]
fn case_folding_is_not_identity() {
    let contents = "Duct tape.\nPick three.";
    assert_eq!(vec!["Duct tape."], search_case_insensitive("DUCT", contents));
    assert!(search("DUCT", contents).is_empty());
}

#[test]
fn case_folding_beyond_ascii() {
    let contents = "gr\u{fc}n\nblau";
    assert_eq!(
        vec!["gr\u{fc}n"],
        search_case_insensitive("GR\u{dc}N", contents)
    );
}
