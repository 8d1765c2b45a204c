use minigrep::{search, search_case_sensitive, select_matching};

#[test]
fn case_sensitive() {
    // Search for the string 'duct' in the contents.
    // Search should return the line that this occurs on.
    let query = "duct";
    let contents = "\
        Rust:
        safe, fast, productive.
        Pick three.
        Duct tape.";

    assert_eq!(vec!["safe, fast, productive."], search(query, contents));
}

#[test]
fn case_insensitive() {
    let query = "rUsT";
    let contents = "\
        Rust:
        safe, fast, productive.
        Pick three.
        Trust me.";

    assert_eq!(vec!["Rust:", "Trust me."], search_case_sensitive(query, contents));
}

#[test]
fn empty_query_returns_every_trimmed_line() {
    let contents = "  one\ntwo  \n\n\tthree\t";
    assert_eq!(vec!["one", "two", "", "three"], search("", contents));
    assert_eq!(vec!["one", "two", "", "three"], search_case_sensitive("", contents));
}

#[test]
fn empty_text_gives_no_lines() {
    assert!(search("", "").is_empty());
    assert!(search("a", "").is_empty());
    assert!(search_case_sensitive("a", "").is_empty());
}

#[test]
fn no_match_gives_no_lines() {
    assert!(search("zz", "ab\ncd").is_empty());
    assert!(search_case_sensitive("zz", "ab\nCD").is_empty());
}

#[test]
fn matches_are_trimmed() {
    assert_eq!(vec!["a match here"], search("match", "   a match here   \nnothing"));
    assert_eq!(vec!["x"], search("x", " \t x \u{3000}"));
}

#[test]
fn order_and_duplicates_are_kept() {
    let contents = "b one\na two\nb one\nc three\nb four";
    assert_eq!(vec!["b one", "b one", "b four"], search("b", contents));
    assert_eq!(vec!["b one", "b one", "b four"], search_case_sensitive("B", contents));
}

#[test]
fn line_endings() {
    let contents = "first\r\nsecond\rpart\nthird\n";
    assert_eq!(vec!["first", "second\rpart", "third"], search("", contents));
    assert_eq!(vec!["", ""], search("", "\n\n"));
    assert_eq!(vec!["last"], search("", "last"));
}

#[test]
fn exact_search_respects_case() {
    assert!(search("RUST", "rust").is_empty());
    assert_eq!(vec!["RUST"], search("RUST", "rust\nRUST"));
}

#[test]
fn ignore_case_lowercases_both_sides() {
    assert_eq!(vec!["rust"], search_case_sensitive("RUST", "rust"));
    assert_eq!(vec!["RuSt it"], search_case_sensitive("rust", "RuSt it"));
    assert_eq!(vec!["Über alles"], search_case_sensitive("über", "Über alles"));
}

#[test]
fn ignore_case_trims_the_query() {
    assert_eq!(vec!["Rust:"], search_case_sensitive("  rust  ", "Rust:\nGo"));
    assert!(search("  rust  ", "rust").is_empty());
}

#[test]
fn ignore_case_keeps_every_exact_match() {
    let query = "ust";
    let contents = "Rust:\nTRUST\njust so\nnothing";
    let exact = search(query, contents);
    let folded = search_case_sensitive(query, contents);
    assert_eq!(vec!["Rust:", "just so"], exact);
    assert_eq!(vec!["Rust:", "TRUST", "just so"], folded);
    for line in &exact {
        assert!(folded.contains(line));
    }
}

#[test]
fn select_matching_goes_by_the_keys() {
    let lines = vec!["Alpha", "Beta", "Gamma"];
    let keys = vec!["alpha", "beta", "gamma"];
    assert_eq!(vec!["Alpha", "Beta", "Gamma"], select_matching("a", &lines, &keys));
    assert_eq!(vec!["Gamma"], select_matching("mm", &lines, &keys));
    assert_eq!(vec!["Beta"], select_matching("bet", &lines, &keys));
    assert!(select_matching("B", &lines, &keys).is_empty());
    let empty: Vec<&str> = Vec::new();
    assert!(select_matching("", &empty, &empty).is_empty());
}
