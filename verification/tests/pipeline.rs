use std::path::Path;
use tree_grepper::extractor::{ExtractedFile, ExtractedMatch, Point};
use tree_grepper::order::Order;
use tree_grepper::pipeline::{gather, reversed, sort};
use tree_grepper::record_order::{
    order_of_files, order_of_match_lists, order_of_matches, order_of_points,
};

fn one(kind: &'static str, name: &'static str, text: &str, start: (usize, usize), end: (usize, usize)) -> ExtractedMatch<'static> {
    ExtractedMatch {
        kind,
        name,
        text: String::from(text),
        start: Point { row: start.0, column: start.1 },
        end: Point { row: end.0, column: end.1 },
    }
}

fn file(path: Option<&str>, file_type: &str, matches: Vec<ExtractedMatch<'static>>) -> ExtractedFile<'static> {
    ExtractedFile { file: path.map(String::from), file_type: String::from(file_type), matches }
}

fn samples() -> Vec<ExtractedFile<'static>> {
    vec![
        file(Some("b.elm"), "elm", vec![one("k", "n", "t", (0, 0), (0, 1))]),
        file(Some("a/b.elm"), "elm", vec![one("k", "n", "t", (0, 0), (0, 1))]),
        file(Some("a.b.elm"), "elm", vec![one("k", "n", "t", (0, 0), (0, 1))]),
        file(None, "elm", vec![one("k", "n", "t", (0, 0), (0, 1))]),
        file(Some("a.elm"), "js", vec![one("k", "n", "t", (0, 0), (0, 1))]),
        file(Some("a.elm"), "elm", vec![one("k", "n", "t", (0, 0), (0, 1))]),
        file(Some("a.elm"), "elm", vec![one("k", "n", "t", (0, 0), (0, 1)), one("k", "n", "t", (1, 0), (1, 1))]),
        file(Some("a.elm"), "elm", vec![one("k", "n", "s", (0, 0), (0, 1))]),
        file(Some("a.elm"), "elm", vec![one("j", "z", "z", (9, 9), (9, 9))]),
        file(Some("a.elm"), "elm", vec![one("k", "m", "z", (9, 9), (9, 9))]),
        file(Some("a.elm"), "elm", vec![one("k", "n", "t", (0, 0), (0, 0))]),
        file(Some("a.elm"), "elm", vec![one("k", "n", "t", (0, 1), (0, 0))]),
        file(Some("a.elm"), "elm", vec![]),
        file(Some("a.elm"), "elm", vec![one("k", "n", "t", (0, 0), (0, 1))]),
        file(Some(""), "", vec![]),
        file(Some("src-gen/a.elm"), "elm", vec![]),
        file(Some("src/a.elm"), "elm", vec![]),
        file(Some("src/a/b.elm"), "elm", vec![]),
        file(Some("src.old/a.elm"), "elm", vec![]),
        file(Some("./src/a.elm"), "elm", vec![]),
        file(Some("/src/a.elm"), "elm", vec![]),
        file(Some("src//a.elm"), "elm", vec![]),
    ]
}

// The order of the fields, with the path as a path: component by
// component, and by its text where the components are the same.
fn field_order(a: &ExtractedFile, b: &ExtractedFile) -> Order {
    let key = |file: &'_ ExtractedFile| {
        (
            file.file.as_ref().map(|path| Path::new(path).to_path_buf()),
            file.file.clone(),
            file.file_type.clone(),
        )
    };
    match key(a).cmp(&key(b)) {
        std::cmp::Ordering::Less => Order::Less,
        std::cmp::Ordering::Greater => Order::Greater,
        std::cmp::Ordering::Equal => std_order(&a.matches, &b.matches),
    }
}

fn sorted_by_fields(mut files: Vec<ExtractedFile<'static>>) -> Vec<ExtractedFile<'static>> {
    files.sort_by(|a, b| match field_order(a, b) {
        Order::Less => std::cmp::Ordering::Less,
        Order::Equal => std::cmp::Ordering::Equal,
        Order::Greater => std::cmp::Ordering::Greater,
    });
    files
}

fn std_order<T: Ord>(a: &T, b: &T) -> Order {
    if a < b {
        Order::Less
    } else if a > b {
        Order::Greater
    } else {
        Order::Equal
    }
}

#[test]
fn the_first_failure_fails_the_run() {
    let outcomes: Vec<Result<Option<u32>, &str>> =
        vec![Ok(Some(1)), Ok(None), Err("first"), Ok(Some(2)), Err("second")];
    assert_eq!(gather(outcomes), Err("first"));
}

#[test]
fn one_unreadable_file_leaves_no_output() {
    let outcomes: Vec<Result<Option<ExtractedFile<'static>>, String>> = vec![
        Ok(Some(file(Some("a.elm"), "elm", vec![one("k", "n", "t", (0, 0), (0, 1))]))),
        Err(String::from("could not read file")),
        Ok(Some(file(Some("b.elm"), "elm", vec![one("k", "n", "t", (0, 0), (0, 1))]))),
    ];
    assert_eq!(gather(outcomes), Err(String::from("could not read file")));
}

#[test]
fn without_a_failure_the_records_come_back_in_order() {
    let outcomes: Vec<Result<Option<u32>, &str>> =
        vec![Ok(None), Ok(Some(3)), Ok(Some(1)), Ok(None), Ok(Some(2)), Ok(None)];
    assert_eq!(gather(outcomes), Ok(vec![3, 1, 2]));
}

#[test]
fn nothing_gathers_to_nothing() {
    let outcomes: Vec<Result<Option<u32>, &str>> = vec![];
    assert_eq!(gather(outcomes), Ok(vec![]));
    let empty: Vec<Result<Option<u32>, &str>> = vec![Ok(None), Ok(None)];
    assert_eq!(gather(empty), Ok(vec![]));
}

#[test]
fn a_list_is_reversed() {
    assert_eq!(reversed(vec![1, 2, 3]), vec![3, 2, 1]);
    assert_eq!(reversed(Vec::<u8>::new()), Vec::<u8>::new());
    assert_eq!(reversed(vec!["x"]), vec!["x"]);
}

#[test]
fn sorting_agrees_with_the_order_of_the_fields() {
    assert_eq!(sort(samples()), sorted_by_fields(samples()));
}

#[test]
fn sorting_gives_one_answer_however_the_records_were_arranged() {
    let expected = sort(samples());
    assert_eq!(sort(reversed(samples())), expected);
    let mut rotated = samples();
    rotated.rotate_left(4);
    assert_eq!(sort(rotated), expected);
    assert_eq!(sort(sort(samples())), expected);
}

#[test]
fn sorting_keeps_every_record() {
    let sorted = sort(samples());
    assert_eq!(sorted.len(), samples().len());
    for record in samples() {
        let before = samples().iter().filter(|other| **other == record).count();
        let after = sorted.iter().filter(|other| **other == record).count();
        assert_eq!(before, after);
    }
}

#[test]
fn sorting_short_lists() {
    assert_eq!(sort(vec![]), vec![]);
    let single = vec![file(Some("a"), "elm", vec![])];
    assert_eq!(sort(single), vec![file(Some("a"), "elm", vec![])]);
    let two = vec![file(Some("b"), "elm", vec![]), file(Some("a"), "elm", vec![])];
    assert_eq!(sort(two), vec![file(Some("a"), "elm", vec![]), file(Some("b"), "elm", vec![])]);
}

#[test]
fn records_without_a_path_come_first() {
    let sorted = sort(vec![file(Some(""), "elm", vec![]), file(None, "elm", vec![])]);
    assert_eq!(sorted[0].file, None);
    assert_eq!(sorted[1].file, Some(String::from("")));
}

#[test]
fn the_order_of_files_is_that_of_their_fields() {
    for a in samples().iter() {
        for b in samples().iter() {
            assert_eq!(order_of_files(a, b), field_order(a, b));
            assert_eq!(order_of_match_lists(&a.matches, &b.matches), std_order(&a.matches, &b.matches));
        }
    }
}

#[test]
fn the_order_of_matches_is_that_of_their_fields() {
    let all: Vec<ExtractedMatch<'static>> = vec![
        one("a", "b", "c", (0, 0), (0, 0)),
        one("a", "b", "c", (0, 0), (0, 1)),
        one("a", "b", "c", (0, 0), (1, 0)),
        one("a", "b", "c", (0, 1), (0, 0)),
        one("a", "b", "c", (1, 0), (0, 0)),
        one("a", "b", "d", (0, 0), (0, 0)),
        one("a", "c", "a", (0, 0), (0, 0)),
        one("b", "a", "a", (0, 0), (0, 0)),
        one("", "", "", (0, 0), (0, 0)),
    ];
    for a in all.iter() {
        for b in all.iter() {
            assert_eq!(order_of_matches(a, b), std_order(a, b));
            assert_eq!(order_of_points(&a.start, &b.start), std_order(&a.start, &b.start));
        }
    }
}

#[test]
fn places_are_ordered_by_row_then_column() {
    assert_eq!(order_of_points(&Point { row: 1, column: 9 }, &Point { row: 2, column: 0 }), Order::Less);
    assert_eq!(order_of_points(&Point { row: 2, column: 1 }, &Point { row: 2, column: 0 }), Order::Greater);
    assert_eq!(order_of_points(&Point { row: 2, column: 1 }, &Point { row: 2, column: 1 }), Order::Equal);
}

#[test]
fn the_records_are_sorted_only_where_that_is_asked_for() {
    assert_eq!(tree_grepper::pipeline::arrange(samples(), true), sorted_by_fields(samples()));
    assert_eq!(tree_grepper::pipeline::arrange(samples(), false), samples());
}

#[test]
fn a_run_ends_with_its_records_or_with_its_first_failure() {
    let outcomes = || -> Vec<Result<Option<ExtractedFile<'static>>, String>> {
        samples().into_iter().map(|record| Ok(Some(record))).chain(vec![Ok(None)]).collect()
    };
    assert_eq!(tree_grepper::pipeline::collect(outcomes(), true), Ok(sorted_by_fields(samples())));
    assert_eq!(tree_grepper::pipeline::collect(outcomes(), false), Ok(samples()));
    let mut failing = outcomes();
    failing.insert(3, Err(String::from("could not read file")));
    failing.push(Err(String::from("later")));
    assert_eq!(
        tree_grepper::pipeline::collect(failing, true),
        Err(String::from("could not read file"))
    );
}

#[test]
fn all_that_is_in_a_directory_stands_together() {
    let names = |files: Vec<ExtractedFile<'static>>| -> Vec<String> {
        files.into_iter().map(|file| file.file.unwrap()).collect()
    };
    let sorted = sort(vec![
        file(Some("src-gen/x.elm"), "elm", vec![]),
        file(Some("src/x.elm"), "elm", vec![]),
        file(Some("src/a/y.elm"), "elm", vec![]),
        file(Some("src.old/x.elm"), "elm", vec![]),
    ]);
    assert_eq!(names(sorted), vec!["src/a/y.elm", "src/x.elm", "src-gen/x.elm", "src.old/x.elm"]);
    let two = sort(vec![file(Some("foo-bar/x"), "elm", vec![]), file(Some("foo/x"), "elm", vec![])]);
    assert_eq!(names(two), vec!["foo/x", "foo-bar/x"]);
}
