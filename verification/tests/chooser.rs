use tree_grepper::cli::Invocation;
use tree_grepper::extractor::Extractor;
use tree_grepper::extractor_chooser::{ChooserError, ExtractorChooser};
use tree_grepper::file_types::FileTypeMatch;
use tree_grepper::language::Language;
use tree_grepper::pipeline::{route, Entry};

fn extractor(language: Language) -> Extractor {
    Extractor::new(language, language.parse_query("(_)@node").unwrap())
}

fn three() -> Vec<Extractor> {
    vec![extractor(Language::Elm), extractor(Language::JavaScript), extractor(Language::Rust)]
}

fn language_for(chooser: &ExtractorChooser, path: &str, is_dir: bool) -> Option<Language> {
    chooser.extractor_for(path, is_dir).map(|extractor| *extractor.language())
}

#[test]
fn a_file_goes_to_the_extractor_of_its_type() {
    let extractors = three();
    let chooser = ExtractorChooser::from_extractors(&extractors).unwrap();
    assert_eq!(language_for(&chooser, "src/Main.elm", false), Some(Language::Elm));
    assert_eq!(language_for(&chooser, "index.js", false), Some(Language::JavaScript));
    assert_eq!(language_for(&chooser, "deep/down/app.jsx", false), Some(Language::JavaScript));
    assert_eq!(language_for(&chooser, "src/lib.rs", false), Some(Language::Rust));
}

#[test]
fn a_file_of_no_claimed_type_goes_nowhere() {
    let extractors = three();
    let chooser = ExtractorChooser::from_extractors(&extractors).unwrap();
    assert_eq!(language_for(&chooser, "README.md", false), None);
    assert_eq!(language_for(&chooser, "main.py", false), None);
    assert_eq!(language_for(&chooser, "elm", false), None);
    assert_eq!(language_for(&chooser, "", false), None);
}

#[test]
fn a_directory_goes_nowhere() {
    let extractors = three();
    let chooser = ExtractorChooser::from_extractors(&extractors).unwrap();
    assert_eq!(language_for(&chooser, "src/Main.elm", true), None);
    assert_eq!(language_for(&chooser, "src", true), None);
}

#[test]
fn the_file_type_is_not_always_the_name_of_the_language() {
    let extractors = vec![
        extractor(Language::Python),
        extractor(Language::TypeScript),
        extractor(Language::Markdown),
    ];
    let chooser = ExtractorChooser::from_extractors(&extractors).unwrap();
    assert_eq!(language_for(&chooser, "a.py", false), Some(Language::Python));
    assert_eq!(language_for(&chooser, "a.ts", false), Some(Language::TypeScript));
    assert_eq!(language_for(&chooser, "a.md", false), Some(Language::Markdown));
    assert_eq!(language_for(&chooser, "a.js", false), None);
}

#[test]
fn two_extractors_of_one_language_are_refused() {
    let extractors = vec![extractor(Language::Elm), extractor(Language::Rust), extractor(Language::Elm)];
    match ExtractorChooser::from_extractors(&extractors) {
        Err(error) => {
            assert_eq!(error, ChooserError::DuplicateQuery);
            assert_eq!(
                error.to_string(),
                "got a duplicate query. This should not have happened. Please report it!"
            );
        }
        Ok(_) => panic!("a duplicate was let through"),
    }
}

#[test]
fn a_chooser_for_every_language_can_be_built() {
    let extractors: Vec<Extractor> = Language::all().into_iter().map(extractor).collect();
    let chooser = ExtractorChooser::from_extractors(&extractors).unwrap();
    assert_eq!(language_for(&chooser, "a.go", false), Some(Language::Go));
    assert_eq!(language_for(&chooser, "a.hs", false), Some(Language::Haskell));
    assert_eq!(language_for(&chooser, "a.java", false), Some(Language::Java));
    assert_eq!(language_for(&chooser, "a.nix", false), Some(Language::Nix));
    assert_eq!(language_for(&chooser, "a.php", false), Some(Language::Php));
    assert_eq!(language_for(&chooser, "a.rb", false), Some(Language::Ruby));
    assert_eq!(language_for(&chooser, "a.ex", false), Some(Language::Elixir));
    assert_eq!(language_for(&chooser, "a.c", false), Some(Language::C));
    assert_eq!(language_for(&chooser, "a.cpp", false), Some(Language::Cpp));
}

#[test]
fn a_chooser_without_extractors_chooses_none() {
    let extractors: Vec<Extractor> = vec![];
    let chooser = ExtractorChooser::from_extractors(&extractors).unwrap();
    assert_eq!(language_for(&chooser, "a.elm", false), None);
}

#[test]
fn the_matchers_answer_decides() {
    let extractors = three();
    let chooser = ExtractorChooser::from_extractors(&extractors).unwrap();
    let pick = |found: FileTypeMatch| chooser.extractor_for_match(&found).map(|e| *e.language());
    assert_eq!(pick(FileTypeMatch::Selected(Some(String::from("js")))), Some(Language::JavaScript));
    assert_eq!(pick(FileTypeMatch::Selected(Some(String::from("rust")))), Some(Language::Rust));
    assert_eq!(pick(FileTypeMatch::Selected(Some(String::from("javascript")))), None);
    assert_eq!(pick(FileTypeMatch::Selected(Some(String::from("py")))), None);
    assert_eq!(pick(FileTypeMatch::Selected(None)), None);
    assert_eq!(pick(FileTypeMatch::Ignored(Some(String::from("js")))), None);
    assert_eq!(pick(FileTypeMatch::Ignored(None)), None);
    assert_eq!(pick(FileTypeMatch::Unmatched), None);
}

#[test]
fn the_extractors_of_a_request_never_collide() {
    let extractors = Invocation::extractors(&vec![
        (String::from("elm"), String::from("(import_clause)")),
        (String::from("rust"), String::from("(_)")),
        (String::from("elm"), String::from("(upper_case_qid)@name")),
    ])
    .unwrap();
    assert!(ExtractorChooser::from_extractors(&extractors).is_ok());
}

#[test]
fn a_matcher_that_cannot_be_built_has_its_words() {
    assert_eq!(
        ChooserError::Matcher(String::from("unrecognized file type: x")).to_string(),
        "could not build a filetype matcher using provided extractors"
    );
}

#[test]
fn the_entries_of_a_walk_are_routed_in_their_order() {
    let extractors = three();
    let chooser = ExtractorChooser::from_extractors(&extractors).unwrap();
    let entry = |path: &str, is_dir: bool| Entry { path: String::from(path), is_dir };
    let entries = vec![
        entry("src", true),
        entry("src/Main.elm", false),
        entry("README.md", false),
        entry("src/lib.rs", false),
        entry("pkg.elm", true),
        entry("src/index.js", false),
        entry("src/Other.elm", false),
    ];
    let routed: Vec<(usize, Language)> = route(&chooser, &entries)
        .iter()
        .map(|routed| (routed.index, *routed.extractor.language()))
        .collect();
    assert_eq!(
        routed,
        vec![
            (1, Language::Elm),
            (3, Language::Rust),
            (5, Language::JavaScript),
            (6, Language::Elm),
        ]
    );
    assert_eq!(route(&chooser, &vec![]).len(), 0);
}

#[test]
fn the_matcher_is_not_asked_about_a_directory() {
    let extractors = three();
    let chooser = ExtractorChooser::from_extractors(&extractors).unwrap();
    assert_eq!(chooser.answer("src/Main.elm", true), FileTypeMatch::Unmatched);
    assert_eq!(chooser.answer("src", true), FileTypeMatch::Unmatched);
}

#[test]
fn the_matcher_answers_for_a_file() {
    let extractors = three();
    let chooser = ExtractorChooser::from_extractors(&extractors).unwrap();
    assert_eq!(
        chooser.answer("src/Main.elm", false),
        FileTypeMatch::Selected(Some(String::from("elm")))
    );
    assert_eq!(chooser.answer("index.js", false), FileTypeMatch::Selected(Some(String::from("js"))));
    assert_eq!(chooser.answer("README.md", false), FileTypeMatch::Ignored(None));
}

#[test]
fn entries_are_routed_by_the_answers_for_them() {
    let extractors = three();
    let chooser = ExtractorChooser::from_extractors(&extractors).unwrap();
    let answers = vec![
        FileTypeMatch::Unmatched,
        FileTypeMatch::Selected(Some(String::from("rust"))),
        FileTypeMatch::Ignored(Some(String::from("elm"))),
        FileTypeMatch::Selected(Some(String::from("py"))),
        FileTypeMatch::Selected(None),
        FileTypeMatch::Selected(Some(String::from("elm"))),
        FileTypeMatch::Selected(Some(String::from("rust"))),
    ];
    let routed: Vec<(usize, Language)> = tree_grepper::pipeline::route_answers(&chooser, &answers)
        .iter()
        .map(|routed| (routed.index, *routed.extractor.language()))
        .collect();
    assert_eq!(routed, vec![(1, Language::Rust), (5, Language::Elm), (6, Language::Rust)]);
    assert_eq!(tree_grepper::pipeline::route_answers(&chooser, &vec![]).len(), 0);
}

#[test]
fn extractors_of_different_languages_always_get_a_chooser() {
    let all = Language::all();
    for first in all.iter() {
        for second in all.iter() {
            let extractors = vec![extractor(*first), extractor(*second)];
            let built = ExtractorChooser::from_extractors(&extractors);
            assert_eq!(built.is_ok(), first != second, "{:?} and {:?}", first, second);
        }
    }
}

#[test]
fn a_file_gets_the_same_answer_every_time() {
    let extractors = three();
    let chooser = ExtractorChooser::from_extractors(&extractors).unwrap();
    for path in ["src/Main.elm", "README.md", "a.rs", "Gemfile", ""] {
        let first = language_for(&chooser, path, false);
        for _ in 0..3 {
            assert_eq!(language_for(&chooser, path, false), first);
        }
    }
}
