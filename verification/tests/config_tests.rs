use minigrep::Config;

#[test]
fn new_valid_config() {
    Config::new(&vec![String::from("foo"), String::from("bar")], false)
        .expect("config should be valid");
}

#[test]
fn config_keeps_its_arguments() {
    let args = vec![String::from("needle"), String::from("haystack.txt")];
    let config = Config::new(&args, false).expect("config should be valid");
    assert_eq!("needle", config.query);
    assert_eq!("haystack.txt", config.filename);
    assert!(config.case_sensitive);
}

#[test]
fn config_toggle_disables_case_sensitivity() {
    let args = vec![String::from("q"), String::from("f")];
    let config = Config::new(&args, true).expect("config should be valid");
    assert!(!config.case_sensitive);
}

#[test]
fn config_missing_query() {
    let args: Vec<String> = Vec::new();
    let err = Config::new(&args, false).unwrap_err();
    assert_eq!("Didn't get a query string", err);
}

#[test]
fn config_missing_filename() {
    let args = vec![String::from("x")];
    let err = Config::new(&args, false).unwrap_err();
    assert_eq!("Didn't get a file name", err);
}

#[test]
fn run_search_follows_the_flag() {
    let contents = "Rust:\nsafe, fast, productive.\nPick three.\nDuct tape.";
    let sensitive = Config::new(
        &vec![String::from("duct"), String::from("poem.txt")],
        false,
    )
    .expect("config should be valid");
    assert_eq!(
        vec!["safe, fast, productive."],
        minigrep::run_search(&sensitive, contents)
    );
    let insensitive = Config::new(
        &vec![String::from("duct"), String::from("poem.txt")],
        true,
    )
    .expect("config should be valid");
    assert_eq!(
        vec!["safe, fast, productive.", "Duct tape."],
        minigrep::run_search(&insensitive, contents)
    );
}
