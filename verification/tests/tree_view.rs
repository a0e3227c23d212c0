use tree_grepper::extractor::Point;
use tree_grepper::language::Language;
use tree_grepper::tree_view::{show_tree, tree_view, write_tree, SyntaxNode, TreeViewError};

fn leaf(kind: &'static str, row: usize, column: usize, text: Option<&'static str>) -> SyntaxNode<'static> {
    SyntaxNode { kind, start: Point { row, column }, text, children: vec![] }
}

fn branch(kind: &'static str, row: usize, column: usize, children: Vec<SyntaxNode<'static>>) -> SyntaxNode<'static> {
    SyntaxNode { kind, start: Point { row, column }, text: Some("not shown"), children }
}

#[test]
fn a_leaf_shows_its_text() {
    let mut out = String::new();
    assert_eq!(write_tree(&leaf("import", 0, 0, Some("import")), "", &mut out), Ok(()));
    assert_eq!(out, "import 1:1: import\n");
}

#[test]
fn children_are_indented_under_their_parent() {
    let tree = branch(
        "file",
        0,
        0,
        vec![
            branch(
                "import_clause",
                0,
                0,
                vec![leaf("import", 0, 0, Some("import")), leaf("upper_case_qid", 0, 7, Some("Html"))],
            ),
            leaf("comment", 2, 4, Some("-- x")),
        ],
    );
    let mut out = String::from("tree:\n");
    assert_eq!(write_tree(&tree, "", &mut out), Ok(()));
    assert_eq!(
        out,
        "tree:\nfile 1:1\n  import_clause 1:1\n    import 1:1: import\n    upper_case_qid 1:8: Html\n  comment 3:5: -- x\n"
    );
}

#[test]
fn the_indentation_starts_where_it_is_told_to() {
    let tree = branch("a", 9, 9, vec![leaf("b", 10, 0, Some(""))]);
    let mut out = String::new();
    assert_eq!(write_tree(&tree, "> ", &mut out), Ok(()));
    assert_eq!(out, "> a 10:10\n>   b 11:1: \n");
}

#[test]
fn writing_stops_at_a_leaf_without_text() {
    let tree = branch(
        "file",
        0,
        0,
        vec![leaf("a", 0, 0, Some("a")), leaf("b", 1, 0, None), leaf("c", 2, 0, Some("c"))],
    );
    let mut out = String::new();
    assert_eq!(write_tree(&tree, "", &mut out), Err(TreeViewError::Text));
    assert_eq!(out, "file 1:1\n  a 1:1: a\n  b 2:1");
    assert_eq!(TreeViewError::Text.to_string(), "could not get node source");
}

#[test]
fn a_branch_without_text_is_no_fault() {
    let tree = SyntaxNode {
        kind: "file",
        start: Point { row: 0, column: 0 },
        text: None,
        children: vec![leaf("a", 0, 0, Some("a"))],
    };
    let mut out = String::new();
    assert_eq!(write_tree(&tree, "", &mut out), Ok(()));
    assert_eq!(out, "file 1:1\n  a 1:1: a\n");
}

#[test]
fn the_tree_of_a_text_is_shown() {
    let mut out = String::new();
    assert_eq!(show_tree(Language::Elm, b"import Html.Styled", &mut out), Ok(()));
    let lines: Vec<&str> = out.lines().collect();
    assert_eq!(lines[0], "file 1:1");
    assert_eq!(lines[1], "  import_clause 1:1");
    assert_eq!(lines[2], "    import 1:1: import");
    assert_eq!(lines[3], "    upper_case_qid 1:8");
    assert!(lines.contains(&"      upper_case_identifier 1:8: Html"));
    assert!(lines.contains(&"      upper_case_identifier 1:13: Styled"));
    assert!(out.ends_with("\n"));
}

#[test]
fn the_view_of_a_parsed_tree_is_written_after_what_is_there() {
    let source = b"let a = 1";
    let mut parser = Language::JavaScript.parser().unwrap();
    let tree = parser.parse(source, None).unwrap();
    let mut out = String::from("// a.js\n");
    assert_eq!(tree_view(&tree, source, &mut out), Ok(()));
    assert!(out.starts_with("// a.js\nprogram 1:1\n  lexical_declaration 1:1\n    let 1:1: let\n"));
    assert!(out.contains("        identifier 1:5: a\n") || out.contains("      identifier 1:5: a\n"));
}

#[test]
fn bytes_that_are_not_text_stop_the_view() {
    let mut out = String::new();
    let outcome = show_tree(Language::JavaScript, b"let a = \"\xff\"", &mut out);
    assert_eq!(outcome, Err(TreeViewError::Text));
    assert!(out.starts_with("program 1:1\n"));
    assert!(!out.ends_with("\n"));
}

#[test]
fn each_failure_of_the_view_has_its_words() {
    assert_eq!(TreeViewError::Language(String::from("x")).to_string(), "could not set language");
    assert_eq!(TreeViewError::Parse.to_string(), "could not parse tree");
}

#[test]
fn a_text_is_parsed_for_its_view() {
    let source = b"import Html";
    let mut parser = Language::Elm.parser().unwrap();
    let tree = tree_grepper::tree_view::parse_source(&mut parser, source).unwrap();
    let mut out = String::new();
    assert_eq!(tree_view(&tree, source, &mut out), Ok(()));
    assert!(out.starts_with("file 1:1\n  import_clause 1:1\n"));
    let mut unset = tree_sitter::Parser::new();
    assert!(tree_grepper::tree_view::parse_source(&mut unset, source).is_none());
}
