use minigrep::{search_by_config, Config, NO_FILE_PATH, NO_QUERY};

fn args(items: &[&str]) -> Vec<String> {
    items.iter().map(|s| s.to_string()).collect()
}

#[test]
fn build_without_arguments_reports_missing_query() {
    match Config::build(args(&[]), false) {
        Err(e) => assert_eq!("No query string provided", e),
        Ok(_) => panic!("expected an error"),
    }
    match Config::build(args(&["minigrep"]), true) {
        Err(e) => assert_eq!(NO_QUERY, e),
        Ok(_) => panic!("expected an error"),
    }
}

#[test]
fn build_without_path_reports_missing_file_path() {
    match Config::build(args(&["minigrep", "needle"]), false) {
        Err(e) => {
            assert_eq!("No file path provided", e);
            assert_eq!(NO_FILE_PATH, e);
        }
        Ok(_) => panic!("expected an error"),
    }
}

#[test]
fn build_takes_query_path_and_flag() {
    let config = Config::build(args(&["minigrep", "needle", "hay.txt"]), true).unwrap();
    assert_eq!("needle", config.query);
    assert_eq!("hay.txt", config.file_path);
    assert!(config.ignore_case);
    let config = Config::build(args(&["minigrep", "a", "b", "extra"]), false).unwrap();
    assert_eq!("a", config.query);
    assert_eq!("b", config.file_path);
    assert!(!config.ignore_case);
}

#[test]
fn search_by_config_picks_the_mode() {
    let contents = "Rust:\nTrust me.\nrusty";
    let exact = Config { query: "rust".to_string(), file_path: String::new(), ignore_case: false };
    assert_eq!(vec!["Trust me.", "rusty"], search_by_config(&exact, contents));
    let folded = Config { query: "rust".to_string(), file_path: String::new(), ignore_case: true };
    assert_eq!(vec!["Rust:", "Trust me.", "rusty"], search_by_config(&folded, contents));
}
