use tree_grepper::language::Language;

#[test]
fn to_str_reflects_from_str() {
    // Note: this will hide results if there are multiple failures. It's
    // something that could be worked around but I don't think it is right
    // now. If it bothers you in the future, feel free to take a stab at it!
    Language::all()
        .into_iter()
        .for_each(|lang| assert_eq!(Language::from_str(&lang.to_string()).unwrap(), lang))
}

#[test]
fn parse_query_smoke_test() {
    Language::all()
        .into_iter()
        .for_each(|lang| assert!(lang.parse_query("(_)").is_ok()));
}

#[test]
fn language_list_should_be_sorted() {
    // sorted elements needed by the bisection in from_str
    let names: Vec<String> = Language::all().iter().map(|lang| lang.to_string()).collect();
    assert!(names.windows(2).all(|pair| pair[0] <= pair[1]));
}

#[test]
fn parse_query_problem() {
    // A rejected pattern is reported in words that say where the fault is,
    // not as a dump of the error struct.
    assert_eq!(
        String::from("Query error at 1:2. Invalid node type node_that_doesnt_exist"),
        Language::Elm
            .parse_query("(node_that_doesnt_exist)")
            .unwrap_err()
            .to_string(),
    )
}

#[test]
fn languages_are_found_by_name() {
    assert_eq!(Language::from_str("c"), Ok(Language::C));
    assert_eq!(Language::from_str("cpp"), Ok(Language::Cpp));
    assert_eq!(Language::from_str("elm"), Ok(Language::Elm));
    assert_eq!(Language::from_str("javascript"), Ok(Language::JavaScript));
    assert_eq!(Language::from_str("typescript"), Ok(Language::TypeScript));
}

#[test]
fn an_unknown_language_is_refused_with_the_list_of_the_known() {
    let unknown = Language::from_str("cobol").unwrap_err();
    assert_eq!(unknown.name, "cobol");
    assert_eq!(
        unknown.to_string(),
        "unknown language cobol. Try one of: c, cpp, elixir, elm, go, haskell, java, javascript, markdown, nix, php, python, ruby, rust, typescript"
    );
}

#[test]
fn names_that_are_nearly_right_are_refused() {
    for name in ["", "C", "js", "py", "ts", "elm ", " elm", "rus", "rustt", "typescripts", "b", "zz", "java script"] {
        assert!(Language::from_str(name).is_err(), "{:?}", name);
    }
}

#[test]
fn each_language_has_its_name() {
    let names: Vec<&str> = Language::all().iter().map(|language| language.name()).collect();
    assert_eq!(
        names,
        vec![
            "c", "cpp", "elixir", "elm", "go", "haskell", "java", "javascript", "markdown", "nix",
            "php", "python", "ruby", "rust", "typescript"
        ]
    );
}

#[test]
fn each_language_has_its_file_type() {
    let all = Language::all();
    let names: Vec<&str> = all.iter().map(|language| language.name_for_types_builder()).collect();
    assert_eq!(
        names,
        vec![
            "c", "cpp", "elixir", "elm", "go", "haskell", "java", "js", "markdown", "nix", "php",
            "py", "ruby", "rust", "ts"
        ]
    );
}

#[test]
fn the_catalogue_lists_every_language_once() {
    let all = Language::all();
    assert_eq!(all.len(), tree_grepper::language::LANGUAGE_COUNT);
    assert_eq!(all[0], Language::C);
    assert_eq!(all[14], Language::TypeScript);
    for (place, language) in all.iter().enumerate() {
        assert_eq!(language.position(), place);
        assert_eq!(Language::from_repr(place), Some(*language));
    }
    assert_eq!(Language::from_repr(15), None);
    assert_eq!(Language::from_repr(usize::MAX), None);
}

#[test]
fn the_languages_are_listed_one_on_each_line() {
    assert_eq!(
        tree_grepper::language::show_languages(),
        "c\ncpp\nelixir\nelm\ngo\nhaskell\njava\njavascript\nmarkdown\nnix\nphp\npython\nruby\nrust\ntypescript\n"
    );
}

#[test]
fn every_grammar_can_be_loaded_into_a_parser() {
    for language in Language::all() {
        assert!(language.parser().is_ok(), "{}", language.name());
    }
}

#[test]
fn a_parser_for_a_language_parses_it() {
    let mut parser = Language::Rust.parser().unwrap();
    let tree = parser.parse("fn main() {}", None).unwrap();
    assert_eq!(tree.root_node().kind(), "source_file");
}

#[test]
fn a_query_knows_its_capture_names() {
    let query = Language::Elm.parse_query("(import_clause (upper_case_qid)@import)@_all").unwrap();
    assert_eq!(query.capture_names(), &["import", "_all"]);
}
