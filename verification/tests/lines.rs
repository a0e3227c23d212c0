use tree_grepper::extractor::{ExtractedFile, ExtractedMatch, Point};
use tree_grepper::lines::{non_utf8_filename_text, render_lines};

fn import_match<'a>(name: &'a str, text: &str, row: usize, column: usize) -> ExtractedMatch<'a> {
    ExtractedMatch {
        kind: "upper_case_qid",
        name,
        text: String::from(text),
        start: Point { row, column },
        end: Point { row, column: column + text.len() },
    }
}

#[test]
fn a_line_holds_path_row_column_name_and_text() {
    let file = ExtractedFile {
        file: Some(String::from("src/Main.elm")),
        file_type: String::from("elm"),
        matches: vec![import_match("import", "Html.Styled", 0, 7)],
    };
    assert_eq!(file.to_string(), "src/Main.elm:1:8:import:Html.Styled\n");
}

#[test]
fn rows_and_columns_are_counted_from_one() {
    let point = Point { row: 0, column: 0 };
    assert_eq!(point.shown_row(), 1);
    assert_eq!(point.shown_column(), 1);
    let far = Point { row: 41, column: 99 };
    assert_eq!(far.shown_row(), 42);
    assert_eq!(far.shown_column(), 100);
    let last = Point { row: usize::MAX, column: usize::MAX };
    assert_eq!(last.shown_row(), usize::MAX as u128 + 1);
    assert_eq!(last.shown_column(), usize::MAX as u128 + 1);
}

#[test]
fn a_record_has_one_line_for_each_match() {
    let file = ExtractedFile {
        file: Some(String::from("a.elm")),
        file_type: String::from("elm"),
        matches: vec![
            import_match("import", "Html", 0, 7),
            import_match("import", "Json.Decode", 9, 7),
            import_match("other", "X", 122, 0),
        ],
    };
    assert_eq!(
        file.to_string(),
        "a.elm:1:8:import:Html\na.elm:10:8:import:Json.Decode\na.elm:123:1:other:X\n"
    );
}

#[test]
fn a_record_without_a_path_says_so() {
    let file = ExtractedFile {
        file: None,
        file_type: String::from("elm"),
        matches: vec![import_match("import", "Html", 0, 7)],
    };
    assert_eq!(file.file_name(), "NO FILE");
    assert_eq!(file.to_string(), "NO FILE:1:8:import:Html\n");
}

#[test]
fn a_path_that_is_not_text_has_a_stand_in() {
    assert_eq!(non_utf8_filename_text(), "NON-UTF8 FILENAME");
}

#[test]
fn the_text_is_written_as_it_is() {
    let file = ExtractedFile {
        file: Some(String::from("a.js")),
        file_type: String::from("javascript"),
        matches: vec![import_match("body", "{\n  a:b\n}", 2, 4)],
    };
    assert_eq!(file.to_string(), "a.js:3:5:body:{\n  a:b\n}\n");
}

#[test]
fn a_record_without_matches_has_no_lines() {
    let file = ExtractedFile { file: None, file_type: String::from("elm"), matches: vec![] };
    assert_eq!(file.to_string(), "");
}

#[test]
fn the_lines_of_records_follow_each_other() {
    let first = ExtractedFile {
        file: Some(String::from("a.elm")),
        file_type: String::from("elm"),
        matches: vec![import_match("import", "Html", 0, 7)],
    };
    let second = ExtractedFile {
        file: Some(String::from("b.elm")),
        file_type: String::from("elm"),
        matches: vec![import_match("import", "Css", 3, 7), import_match("import", "Svg", 4, 7)],
    };
    assert_eq!(
        render_lines(&vec![first, second]),
        "a.elm:1:8:import:Html\nb.elm:4:8:import:Css\nb.elm:5:8:import:Svg\n"
    );
    assert_eq!(render_lines(&vec![]), "");
}

#[test]
fn write_line_adds_to_what_is_there() {
    let mut out = String::from("before\n");
    import_match("import", "Html", 0, 7).write_line("x.elm", &mut out);
    assert_eq!(out, "before\nx.elm:1:8:import:Html\n");
}
