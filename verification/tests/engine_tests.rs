use minigrep::run_search;
use minigrep::search;
use minigrep::search_case_insensitive;
use minigrep::split_into_lines;
use minigrep::Config;

#[test]
fn case_sensitive() {
    let query = "duct";
    let contents = "\
Rust:
safe, fast, productive.
Pick three.
Duct tape.";
    assert_eq!(vec!["safe, fast, productive."], search(query, contents));
}

#[test]
fn case_insensitive() {
    let query = "rUsT";
    let contents = "\
Rust:
safe, fast, productive.
Pick three.
Trust me.";
    assert_eq!(
        vec!["Rust:", "Trust me."],
        search_case_insensitive(query, contents)
    );
}

#[test]
fn absent_query_yields_empty_for_both_variants() {
    let contents = "\
Rust:
safe, fast, productive.
Pick three.";
    let query = "monomorphization";
    assert!(search(query, contents).is_empty());
    assert!(search_case_insensitive(query, contents).is_empty());
}

#[test]
fn repeated_calls_yield_identical_outputs() {
    let contents = "\
Rust:
safe, fast, productive.
Pick three.";
    assert_eq!(search("st", contents), search("st", contents));
    assert_eq!(
        search_case_insensitive("RU", contents),
        search_case_insensitive("RU", contents)
    );
}

#[test]
fn matches_keep_source_order() {
    let contents = "\
one ant
two bees
three ants
four cats
five anthems";
    assert_eq!(
        vec!["one ant", "three ants", "five anthems"],
        search("ant", contents)
    );
    assert_eq!(
        vec!["one ant", "three ants", "five anthems"],
        search_case_insensitive("ANT", contents)
    );
}

#[test]
fn empty_contents_have_no_lines() {
    assert!(split_into_lines("").is_empty());
    assert!(search("", "").is_empty());
    assert!(search_case_insensitive("", "").is_empty());
}

#[test]
fn trailing_line_break_opens_no_empty_line() {
    assert_eq!(vec!["a", "b"], split_into_lines("a\nb\n"));
    assert_eq!(vec!["a", "b"], search("", "a\nb\n"));
    assert_eq!(vec!["a", "", "b"], split_into_lines("a\n\nb"));
}

#[test]
fn empty_query_matches_every_line() {
    let contents = "\
alpha
beta";
    assert_eq!(vec!["alpha", "beta"], search("", contents));
    assert_eq!(vec!["alpha", "beta"], search_case_insensitive("", contents));
}

#[test]
fn case_insensitive_matches_non_ascii_letters() {
    let contents = "\
L'Équipe
le journal";
    assert_eq!(
        vec!["L'Équipe"],
        search_case_insensitive("éQUIPE", contents)
    );
    assert!(search("éQUIPE", contents).is_empty());
}

#[test]
fn run_search_dispatches_on_the_case_toggle() {
    let contents = "\
Rust:
Trust me.";
    let sensitive = Config {
        query: "rUsT".to_string(),
        file_path: "unused".to_string(),
        ignore_case: false,
    };
    let insensitive = Config {
        query: "rUsT".to_string(),
        file_path: "unused".to_string(),
        ignore_case: true,
    };
    assert!(run_search(&sensitive, contents).is_empty());
    assert_eq!(
        vec!["Rust:", "Trust me."],
        run_search(&insensitive, contents)
    );
}
