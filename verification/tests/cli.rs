use tree_grepper::cli::{
    check_pattern, combine, same_text, with_whole_match_capture, Arguments, Invocation,
    LanguageQuery, QueryFormat, RequestError,
};
use tree_grepper::language::Language;

fn pair(language: &str, pattern: &str) -> (String, String) {
    (String::from(language), String::from(pattern))
}

fn query(language: Language, text: &str) -> LanguageQuery {
    LanguageQuery { language, text: String::from(text) }
}

fn arguments() -> Arguments {
    Arguments {
        languages: false,
        queries: vec![pair("elm", "(import_clause)")],
        paths: vec![String::from(".")],
        no_gitignore: false,
        format: String::from("lines"),
        sort: false,
    }
}

#[test]
fn formats_are_found_by_name() {
    assert_eq!(QueryFormat::from_str("lines"), Ok(QueryFormat::Lines));
    assert_eq!(QueryFormat::from_str("json"), Ok(QueryFormat::Json));
    assert_eq!(QueryFormat::from_str("json-lines"), Ok(QueryFormat::JsonLines));
    assert_eq!(QueryFormat::from_str("pretty-json"), Ok(QueryFormat::PrettyJson));
}

#[test]
fn an_unknown_format_is_refused() {
    let unknown = QueryFormat::from_str("yaml").unwrap_err();
    assert_eq!(unknown.name, "yaml");
    assert_eq!(unknown.to_string(), "unknown format. See --help for valid formats.");
    assert!(QueryFormat::from_str("").is_err());
    assert!(QueryFormat::from_str("Lines").is_err());
    assert!(QueryFormat::from_str("json ").is_err());
}

#[test]
fn texts_are_the_same_or_not() {
    assert!(same_text("json", "json"));
    assert!(same_text("", ""));
    assert!(!same_text("json", "json-lines"));
    assert!(!same_text("a", "b"));
}

#[test]
fn a_pattern_without_captures_gets_the_whole_match_capture() {
    assert_eq!(with_whole_match_capture("(import_clause)", 0), "(import_clause)@query");
    assert_eq!(with_whole_match_capture("(import_clause (upper_case_qid)@import)", 1),
        "(import_clause (upper_case_qid)@import)");
    assert_eq!(with_whole_match_capture("", 0), "@query");
    assert_eq!(with_whole_match_capture("(a)@x (b)@y", 2), "(a)@x (b)@y");
}

#[test]
fn a_pattern_is_checked_and_completed() {
    assert_eq!(check_pattern(Language::Elm, "(import_clause)"), Ok(String::from("(import_clause)@query")));
    assert_eq!(
        check_pattern(Language::Elm, "(import_clause (upper_case_qid)@import)"),
        Ok(String::from("(import_clause (upper_case_qid)@import)"))
    );
    assert_eq!(
        check_pattern(Language::Elm, "(import_clause (upper_case_qid)@_import)"),
        Ok(String::from("(import_clause (upper_case_qid)@_import)"))
    );
    let problem = check_pattern(Language::Elm, "(node_that_doesnt_exist)").unwrap_err();
    assert_eq!(problem.message, "Query error at 1:2. Invalid node type node_that_doesnt_exist");
}

#[test]
fn the_queries_of_a_language_are_written_one_after_another() {
    let merged = combine(&vec![
        query(Language::Elm, "(one)"),
        query(Language::Rust, "(two)"),
        query(Language::Elm, "(three)"),
        query(Language::C, "(four)"),
        query(Language::Rust, "(five)"),
        query(Language::Elm, "(six)"),
    ]);
    assert_eq!(
        merged,
        vec![
            query(Language::Elm, "(one)(three)(six)"),
            query(Language::Rust, "(two)(five)"),
            query(Language::C, "(four)"),
        ]
    );
}

#[test]
fn combining_short_lists() {
    assert_eq!(combine(&vec![]), vec![]);
    assert_eq!(combine(&vec![query(Language::Go, "(a)")]), vec![query(Language::Go, "(a)")]);
    assert_eq!(
        combine(&vec![query(Language::Go, ""), query(Language::Go, "")]),
        vec![query(Language::Go, "")]
    );
}

#[test]
fn one_extractor_is_made_for_each_language() {
    let extractors = Invocation::extractors(&vec![
        pair("javascript", "(identifier)@id"),
        pair("elm", "(import_clause (upper_case_qid)@import)"),
        pair("javascript", "(string)@_quiet"),
        pair("elm", "(import_clause)"),
    ])
    .unwrap();
    assert_eq!(extractors.len(), 2);
    assert_eq!(*extractors[0].language(), Language::JavaScript);
    assert_eq!(*extractors[0].capture_names(), vec![String::from("id"), String::from("_quiet")]);
    assert_eq!(*extractors[1].language(), Language::Elm);
    assert_eq!(*extractors[1].capture_names(), vec![String::from("import"), String::from("query")]);
}

#[test]
fn no_queries_give_no_extractors() {
    assert_eq!(Invocation::extractors(&vec![]).unwrap().len(), 0);
}

#[test]
fn an_unknown_language_fails_the_request() {
    let error = Invocation::extractors(&vec![pair("elm", "(import_clause)"), pair("cobol", "(_)")])
        .unwrap_err();
    assert_eq!(error.to_string(), "could not parse language");
    assert_eq!(
        error.cause(),
        "unknown language cobol. Try one of: c, cpp, elixir, elm, go, haskell, java, javascript, markdown, nix, php, python, ruby, rust, typescript"
    );
    match error {
        RequestError::Language(unknown) => assert_eq!(unknown.name, "cobol"),
        other => panic!("{:?}", other),
    }
}

#[test]
fn a_rejected_pattern_fails_the_request() {
    let error = Invocation::extractors(&vec![
        pair("elm", "(import_clause)"),
        pair("elm", "(node_that_doesnt_exist)"),
        pair("cobol", "(_)"),
    ])
    .unwrap_err();
    assert_eq!(error.to_string(), "could not parse query");
    assert_eq!(error.cause(), "Query error at 1:2. Invalid node type node_that_doesnt_exist");
    assert!(matches!(error, RequestError::Query(_)));
}

#[test]
fn the_first_fault_is_the_one_reported() {
    let error = Invocation::extractors(&vec![pair("cobol", "(_)"), pair("elm", "(nope)")]).unwrap_err();
    assert!(matches!(error, RequestError::Language(_)));
}

#[test]
fn a_comment_at_the_end_of_a_pattern_swallows_what_follows() {
    // The whole-match capture and the next pattern land inside the comment,
    // so the merged query has no capture at all: a valid request that never
    // reports anything.
    let extractors = Invocation::extractors(&vec![
        pair("elm", "(import_clause) ; every import"),
        pair("elm", "(upper_case_qid)@name"),
    ])
    .unwrap();
    assert_eq!(extractors.len(), 1);
    assert_eq!(extractors[0].capture_names().len(), 0);
    assert!(extractors[0].has_only_ignored_captures());
}

#[test]
fn the_list_of_languages_wins_over_a_search() {
    let mut args = arguments();
    args.languages = true;
    args.queries = vec![pair("cobol", "(")];
    args.format = String::from("yaml");
    assert!(matches!(Invocation::from_args(args), Ok(Invocation::ShowLanguages)));
}

#[test]
fn a_search_carries_what_was_asked_for() {
    let mut args = arguments();
    args.paths = vec![String::from("src"), String::from("tests")];
    args.no_gitignore = true;
    args.format = String::from("json-lines");
    args.sort = true;
    match Invocation::from_args(args).unwrap() {
        Invocation::DoQuery(opts) => {
            assert_eq!(opts.extractors.len(), 1);
            assert_eq!(*opts.extractors[0].language(), Language::Elm);
            assert_eq!(opts.paths, vec![String::from("src"), String::from("tests")]);
            assert!(!opts.git_ignore);
            assert_eq!(opts.format, QueryFormat::JsonLines);
            assert!(opts.sort);
            assert!(opts.extractor_chooser().is_ok());
        }
        Invocation::ShowLanguages => panic!("a search was asked for"),
    }
}

#[test]
fn git_ignore_files_are_read_unless_declined() {
    match Invocation::from_args(arguments()).unwrap() {
        Invocation::DoQuery(opts) => {
            assert!(opts.git_ignore);
            assert!(!opts.sort);
            assert_eq!(opts.format, QueryFormat::Lines);
        }
        Invocation::ShowLanguages => panic!("a search was asked for"),
    }
}

#[test]
fn an_unknown_format_fails_the_request() {
    let mut args = arguments();
    args.format = String::from("yaml");
    let error = Invocation::from_args(args).unwrap_err();
    assert_eq!(error.to_string(), "could not set format");
    assert_eq!(error.cause(), "unknown format. See --help for valid formats.");
    assert!(matches!(error, RequestError::Format(_)));
}

#[test]
fn a_bad_query_is_reported_before_a_bad_format() {
    let mut args = arguments();
    args.queries = vec![pair("elm", "(nope)")];
    args.format = String::from("yaml");
    assert!(matches!(Invocation::from_args(args), Err(RequestError::Query(_))));
}

#[test]
fn the_paths_are_kept_as_given() {
    let mut args = arguments();
    args.paths = vec![String::from("a"), String::from("b/c"), String::from("")];
    assert_eq!(Invocation::paths(&args), vec![String::from("a"), String::from("b/c"), String::from("")]);
}

#[test]
fn a_rejected_merged_query_has_its_words() {
    let problem = tree_grepper::language::QueryProblem { message: String::from("Query error at 1:1. x") };
    let error = RequestError::CombinedQuery(problem);
    assert_eq!(error.to_string(), "could not parse combined query");
    assert_eq!(error.cause(), "Query error at 1:1. x");
}

#[test]
fn a_search_needs_a_place_to_search() {
    let mut args = arguments();
    args.paths = vec![String::from("src"), String::from("tests")];
    match Invocation::from_args(args).unwrap() {
        Invocation::DoQuery(opts) => assert_eq!(opts.first_path(), Ok(&String::from("src"))),
        Invocation::ShowLanguages => panic!("a search was asked for"),
    }
    let mut none = arguments();
    none.paths = vec![];
    match Invocation::from_args(none).unwrap() {
        Invocation::DoQuery(opts) => {
            let refused = opts.first_path().unwrap_err();
            assert_eq!(refused.to_string(), "I need at least one file or directory to walk!");
        }
        Invocation::ShowLanguages => panic!("a search was asked for"),
    }
}
