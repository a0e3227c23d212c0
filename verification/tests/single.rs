use tree_grepper::extractor::{Capture, Point};
use tree_grepper::language::Language;
use tree_grepper::single::{
    dump, format_lines, get_query, language_from_str, search, shown_of, visit,
    wants_whole_match_capture, Format, FormatError, LanguageChoiceError, Match, NamedCapture,
    NotText, SearchError,
};

fn capture(index: u32, text: Option<&'static str>, row: usize, column: usize) -> Capture<'static> {
    Capture {
        index,
        kind: "node",
        text,
        start: Point { row, column },
        end: Point { row, column: column + text.map(|t| t.len()).unwrap_or(0) },
    }
}

fn named(name: &str, source: &str, row: u128, column: u128) -> NamedCapture {
    NamedCapture { name: String::from(name), source: String::from(source), row, column }
}

fn names() -> Vec<String> {
    vec![String::from("_fn"), String::from("import")]
}

#[test]
fn three_languages_are_taken() {
    assert_eq!(language_from_str("elm"), Ok(Language::Elm));
    assert_eq!(language_from_str("ruby"), Ok(Language::Ruby));
    assert_eq!(language_from_str("javascript"), Ok(Language::JavaScript));
}

#[test]
fn other_languages_are_not_taken() {
    assert_eq!(language_from_str("rust"), Err(LanguageChoiceError::UnknownLanguage));
    assert_eq!(language_from_str(""), Err(LanguageChoiceError::UnknownLanguage));
    assert_eq!(language_from_str("Elm"), Err(LanguageChoiceError::UnknownLanguage));
    assert_eq!(
        LanguageChoiceError::UnknownLanguage.to_string(),
        "Unknown language. Try one of \"elm\" or \"ruby\""
    );
}

#[test]
fn two_formats_are_known() {
    assert_eq!(Format::from_str("lines"), Ok(Format::Lines));
    assert_eq!(Format::from_str("json"), Ok(Format::JSON));
    assert_eq!(Format::from_str("json-lines"), Err(FormatError::InvalidFormatString));
    assert_eq!(Format::from_str(""), Err(FormatError::InvalidFormatString));
    assert_eq!(
        FormatError::InvalidFormatString.to_string(),
        "valid values are \"lines\" and \"json\"."
    );
}

#[test]
fn a_single_pattern_without_captures_wants_the_whole_match() {
    assert!(wants_whole_match_capture(1, 0));
    assert!(!wants_whole_match_capture(1, 1));
    assert!(!wants_whole_match_capture(2, 0));
    assert!(!wants_whole_match_capture(0, 0));
    assert!(!wants_whole_match_capture(3, 2));
}

#[test]
fn a_query_without_captures_is_compiled_with_the_whole_match_capture() {
    let query = get_query(Language::Elm, "(import_clause)").unwrap();
    assert_eq!(query.capture_names(), &["query"]);
    let as_given = get_query(Language::Elm, "(import_clause (upper_case_qid)@import)").unwrap();
    assert_eq!(as_given.capture_names(), &["import"]);
    let two_patterns = get_query(Language::Elm, "(import_clause) (upper_case_qid)").unwrap();
    assert_eq!(two_patterns.capture_names().len(), 0);
    assert_eq!(two_patterns.pattern_count(), 2);
}

#[test]
fn a_rejected_pattern_is_reported() {
    let problem = get_query(Language::Elm, "(node_that_doesnt_exist)").unwrap_err();
    assert_eq!(problem.to_string(), "Query error at 1:2. Invalid node type node_that_doesnt_exist");
}

#[test]
fn what_is_shown_of_a_match_leaves_the_silent_captures_out() {
    let captures = vec![
        capture(0, Some("require"), 0, 10),
        capture(1, Some("\"foo.js\""), 0, 18),
        capture(0, None, 3, 0),
        capture(1, Some(""), 41, 99),
    ];
    assert_eq!(
        shown_of(&names(), &captures),
        Ok(vec![named("import", "\"foo.js\"", 1, 19), named("import", "", 42, 100)])
    );
}

#[test]
fn a_shown_capture_without_text_fails_the_match() {
    let captures = vec![capture(1, Some("a"), 0, 0), capture(1, None, 1, 0)];
    assert_eq!(shown_of(&names(), &captures), Err(NotText));
    assert_eq!(shown_of(&names(), &vec![]), Ok(vec![]));
}

#[test]
fn every_match_is_reported_even_without_shown_captures() {
    let found = vec![
        vec![capture(0, Some("f"), 0, 0)],
        vec![],
        vec![capture(1, Some("x"), 2, 4), capture(0, Some("g"), 2, 0)],
    ];
    let matches = visit("a.js", &names(), &found).unwrap();
    assert_eq!(
        matches,
        vec![
            Match { path: String::from("a.js"), captures: vec![] },
            Match { path: String::from("a.js"), captures: vec![] },
            Match { path: String::from("a.js"), captures: vec![named("import", "x", 3, 5)] },
        ]
    );
    assert_eq!(visit("a.js", &names(), &vec![]), Ok(vec![]));
}

#[test]
fn one_capture_without_text_fails_the_file() {
    let found = vec![vec![capture(1, Some("x"), 0, 0)], vec![capture(1, None, 1, 0)]];
    assert_eq!(visit("a.js", &names(), &found), Err(NotText));
}

#[test]
fn a_text_is_searched_match_by_match() {
    let language = Language::JavaScript;
    let query = get_query(
        language,
        "(call_expression (identifier)@_fn (arguments . (string)@import .) (#eq? @_fn require))",
    )
    .unwrap();
    let mut parser = language.parser().unwrap();
    let source = "let a = require(\"a.js\")\nlet b = other(\"b.js\")\n  require(\"c.js\")";
    let matches = search(&query, "src/index.js", source, &mut parser).unwrap();
    assert_eq!(
        matches,
        vec![
            Match {
                path: String::from("src/index.js"),
                captures: vec![named("import", "\"a.js\"", 1, 17)],
            },
            Match {
                path: String::from("src/index.js"),
                captures: vec![named("import", "\"c.js\"", 3, 11)],
            },
        ]
    );
    assert_eq!(
        format_lines(&matches),
        "src/index.js:1:17:import:\"a.js\"\nsrc/index.js:3:11:import:\"c.js\"\n"
    );
}

#[test]
fn a_parser_without_a_language_gives_no_tree() {
    let query = get_query(Language::Elm, "(import_clause)").unwrap();
    let mut parser = tree_sitter::Parser::new();
    assert_eq!(search(&query, "a.elm", "import Html", &mut parser), Err(SearchError::Parse));
}

#[test]
fn each_shown_capture_has_a_line() {
    let matches = vec![
        Match { path: String::from("a"), captures: vec![named("x", "1", 1, 1), named("y", "2\n3", 10, 20)] },
        Match { path: String::from("b"), captures: vec![] },
        Match { path: String::from("c"), captures: vec![named("z", "", 7, 8)] },
    ];
    assert_eq!(format_lines(&matches), "a:1:1:x:1\na:10:20:y:2\n3\nc:7:8:z:\n");
    assert_eq!(format_lines(&vec![]), "");
}

#[test]
fn a_tree_is_dumped_as_the_engine_writes_it() {
    assert_eq!(
        dump(Language::Elm, b"import Html"),
        Ok(String::from(
            "(file (import_clause (import) moduleName: (upper_case_qid (upper_case_identifier))))"
        ))
    );
}
