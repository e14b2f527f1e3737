use minigrep::search;
use minigrep::search_case_insensitive;
use minigrep::Config;
use minigrep::matcher::search_with_config;
use minigrep::matcher::split_lines;

#[test]
fn case_sensitive() {
    let query = "duct";
    let contents = "\
Rust:
safe, fast, productive.
Pick three.
Duct tape.";

    assert_eq!(vec!["safe, fast, productive."], search(query, contents),);
}

#[test]
fn case_insensitive() {
    let query = "rUsT";
    let contents = "\
Rust:
safe, fast, productive.
Pick three.
Trust me.";

    assert_eq!(
        vec!["Rust:", "Trust me."],
        search_case_insensitive(query, contents),
    );
}

#[test]
fn scenario_duct_three_lines() {
    let contents = "Rust:\nsafe, fast, productive.\nPick three.\n";
    assert_eq!(vec!["safe, fast, productive."], search("duct", contents));
}

#[test]
fn scenario_rust_mixed_case() {
    let contents = "Rust:\nsafe, fast, productive.\nPick three.\nTrust me.\n";
    assert_eq!(
        vec!["Rust:", "Trust me."],
        search_case_insensitive("rUsT", contents)
    );
}

#[test]
fn sensitive_result_is_subset_of_insensitive() {
    let contents = "Rust:\nsafe, fast, productive.\nPick three.\nTrust me.";
    let sens = search("Rust", contents);
    let insens = search_case_insensitive("Rust", contents);
    assert_eq!(vec!["Rust:"], sens);
    assert_eq!(vec!["Rust:", "Trust me."], insens);
    for line in &sens {
        assert!(insens.contains(line));
    }
}

#[test]
fn repeated_calls_agree() {
    let contents = "one\ntwo\nthree\ntwenty-two";
    assert_eq!(search("tw", contents), search("tw", contents));
    assert_eq!(
        search_case_insensitive("TW", contents),
        search_case_insensitive("TW", contents)
    );
    assert_eq!(vec!["two", "twenty-two"], search("tw", contents));
    assert_eq!(vec!["two", "twenty-two"], search_case_insensitive("TW", contents));
}

#[test]
fn empty_contents_yields_nothing() {
    assert_eq!(Vec::<&str>::new(), search("anything", ""));
    assert_eq!(Vec::<&str>::new(), search("", ""));
    assert_eq!(Vec::<&str>::new(), search_case_insensitive("x", ""));
}

#[test]
fn empty_query_yields_every_line() {
    let contents = "alpha\nbeta\ngamma";
    assert_eq!(vec!["alpha", "beta", "gamma"], search("", contents));
    assert_eq!(
        vec!["alpha", "beta", "gamma"],
        search_case_insensitive("", contents)
    );
}

#[test]
fn trailing_newline_is_not_a_line() {
    assert_eq!(vec!["a", "b"], split_lines("a\nb\n"));
    assert_eq!(vec!["a", "b"], split_lines("a\nb"));
    assert_eq!(vec![""], split_lines("\n"));
    assert_eq!(Vec::<&str>::new(), split_lines(""));
    assert_eq!(vec!["", ""], split_lines("\n\n"));
}

#[test]
fn no_match_yields_empty_result() {
    let contents = "alpha\nbeta";
    assert_eq!(Vec::<&str>::new(), search("gamma", contents));
    assert_eq!(Vec::<&str>::new(), search("Alpha", contents));
    assert_eq!(Vec::<&str>::new(), search_case_insensitive("gamma", contents));
}

#[test]
fn config_mode_selects_search_variant() {
    let contents = "Rust:\nTrust me.";
    let sensitive = Config::new(
        &vec![
            String::from("prog"),
            String::from("rUsT"),
            String::from("poem.txt"),
        ],
        false,
    )
    .unwrap();
    assert_eq!(Vec::<&str>::new(), search_with_config(&sensitive, contents));

    let insensitive = Config::new(
        &vec![
            String::from("prog"),
            String::from("rUsT"),
            String::from("poem.txt"),
        ],
        true,
    )
    .unwrap();
    assert_eq!(
        vec!["Rust:", "Trust me."],
        search_with_config(&insensitive, contents)
    );
}

#[test]
fn lowercasing_is_ascii_only() {
    let contents = "MiXeD Case Line\nplain line";
    assert_eq!(
        vec!["MiXeD Case Line"],
        search_case_insensitive("mixed CASE", contents)
    );
    assert_eq!(Vec::<&str>::new(), search("mixed CASE", contents));
}
