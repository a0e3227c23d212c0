//! The order of the records: field by field in the order in which the
//! fields are declared, which is the order that sorted output is in.
use crate::extractor::{ExtractedFile, ExtractedMatch, FileView, MatchView, Point};
use crate::order::{
    and_then, int_order, lawful, lemma_seq_order_equal, lemma_seq_order_flips,
    lemma_seq_order_skip, lemma_seq_order_transitive, seq_order, then, Order,
};
use crate::path_order::{
    lemma_path_text_pair, lemma_path_text_transitive, order_of_paths, path_text_order,
};
use crate::text::{
    lemma_text_order_equal, lemma_text_order_flips, lemma_text_order_transitive, order_of_text,
    text_order,
};
use vstd::prelude::*;

verus! {

/// The order of two places: by row, then by column.
pub open spec fn point_order(a: Point, b: Point) -> Order {
    then(int_order(a.row as int, b.row as int), int_order(a.column as int, b.column as int))
}

/// The order of two matches: by kind, name, text, start and end.
pub open spec fn match_order(a: MatchView, b: MatchView) -> Order {
    then(
        text_order(a.kind, b.kind),
        then(
            text_order(a.name, b.name),
            then(
                text_order(a.text, b.text),
                then(point_order(a.start, b.start), point_order(a.end, b.end)),
            ),
        ),
    )
}

/// The order of matches as a value.
pub open spec fn match_ordering() -> spec_fn(MatchView, MatchView) -> Order {
    |a: MatchView, b: MatchView| match_order(a, b)
}

/// The order of two lists of matches: lexicographic.
pub open spec fn matches_order(a: Seq<MatchView>, b: Seq<MatchView>) -> Order {
    seq_order(match_ordering(), a, b)
}

/// The order of two paths: no path comes before any path, and two paths
/// are compared component by component, so that all that is in a
/// directory stands together.
pub open spec fn path_order(a: Option<Seq<char>>, b: Option<Seq<char>>) -> Order {
    match (a, b) {
        (None, None) => Order::Equal,
        (None, Some(_)) => Order::Less,
        (Some(_), None) => Order::Greater,
        (Some(x), Some(y)) => path_text_order(x, y),
    }
}

/// The order of two file records: by path, then by language, then by matches.
pub open spec fn file_order(a: FileView, b: FileView) -> Order {
    then(
        path_order(a.file, b.file),
        then(text_order(a.file_type, b.file_type), matches_order(a.matches, b.matches)),
    )
}

/// The order of file records as a value.
pub open spec fn file_ordering() -> spec_fn(FileView, FileView) -> Order {
    |a: FileView, b: FileView| file_order(a, b)
}

/// What holds of the order of any two texts.
proof fn lemma_text_pair(a: Seq<char>, b: Seq<char>)
    ensures
        (text_order(a, b) is Equal) <==> a == b,
        (text_order(b, a) is Equal) <==> a == b,
        (text_order(a, b) is Less) <==> (text_order(b, a) is Greater),
        (text_order(a, b) is Greater) <==> (text_order(b, a) is Less),
{
    lemma_text_order_equal(a, b);
    lemma_text_order_equal(b, a);
    lemma_text_order_flips(a, b);
    lemma_text_order_flips(b, a);
}

/// What holds of the order of any three texts.
proof fn lemma_text_triple(a: Seq<char>, b: Seq<char>, c: Seq<char>)
    ensures
        (text_order(a, b) is Equal) <==> a == b,
        (text_order(b, c) is Equal) <==> b == c,
        (text_order(a, c) is Equal) <==> a == c,
        (text_order(a, b) is Less) && (text_order(b, c) is Less) ==> (text_order(a, c) is Less),
{
    lemma_text_order_equal(a, b);
    lemma_text_order_equal(b, c);
    lemma_text_order_equal(a, c);
    if (text_order(a, b) is Less) && (text_order(b, c) is Less) {
        lemma_text_order_transitive(a, b, c);
    }
}

/// The order of matches is lawful.
pub proof fn lemma_match_order_lawful()
    ensures
        lawful(match_ordering()),
{
    let ord = match_ordering();
    assert forall|a: MatchView, b: MatchView| (#[trigger] ord(a, b) is Equal) <==> a == b by {
        lemma_text_pair(a.kind, b.kind);
        lemma_text_pair(a.name, b.name);
        lemma_text_pair(a.text, b.text);
    }
    assert forall|a: MatchView, b: MatchView| (#[trigger] ord(a, b) is Less) <==> (ord(b, a)
        is Greater) by {
        lemma_text_pair(a.kind, b.kind);
        lemma_text_pair(a.name, b.name);
        lemma_text_pair(a.text, b.text);
    }
    assert forall|a: MatchView, b: MatchView, c: MatchView|
        (#[trigger] ord(a, b) is Less) && (#[trigger] ord(b, c) is Less) implies ord(a, c)
        is Less by {
        lemma_text_triple(a.kind, b.kind, c.kind);
        lemma_text_triple(a.name, b.name, c.name);
        lemma_text_triple(a.text, b.text, c.text);
    }
}

/// What holds of the order of any two paths.
proof fn lemma_path_pair(a: Option<Seq<char>>, b: Option<Seq<char>>)
    ensures
        (path_order(a, b) is Equal) <==> a == b,
        (path_order(b, a) is Equal) <==> a == b,
        (path_order(a, b) is Less) <==> (path_order(b, a) is Greater),
        (path_order(a, b) is Greater) <==> (path_order(b, a) is Less),
{
    if a is Some && b is Some {
        lemma_path_text_pair(a.unwrap(), b.unwrap());
    }
}

/// What holds of the order of any three paths.
proof fn lemma_path_triple(a: Option<Seq<char>>, b: Option<Seq<char>>, c: Option<Seq<char>>)
    ensures
        (path_order(a, b) is Equal) <==> a == b,
        (path_order(b, c) is Equal) <==> b == c,
        (path_order(a, c) is Equal) <==> a == c,
        (path_order(a, b) is Less) && (path_order(b, c) is Less) ==> (path_order(a, c) is Less),
{
    lemma_path_pair(a, b);
    lemma_path_pair(b, c);
    lemma_path_pair(a, c);
    if a is Some && b is Some && c is Some {
        if (path_order(a, b) is Less) && (path_order(b, c) is Less) {
            lemma_path_text_transitive(a.unwrap(), b.unwrap(), c.unwrap());
        }
    }
}

/// What holds of the order of any two lists of matches.
proof fn lemma_matches_pair(a: Seq<MatchView>, b: Seq<MatchView>)
    ensures
        (matches_order(a, b) is Equal) <==> a == b,
        (matches_order(b, a) is Equal) <==> a == b,
        (matches_order(a, b) is Less) <==> (matches_order(b, a) is Greater),
        (matches_order(a, b) is Greater) <==> (matches_order(b, a) is Less),
{
    lemma_match_order_lawful();
    lemma_seq_order_equal(match_ordering(), a, b);
    lemma_seq_order_equal(match_ordering(), b, a);
    lemma_seq_order_flips(match_ordering(), a, b);
    lemma_seq_order_flips(match_ordering(), b, a);
}

/// The order of file records is lawful: it ties on identical records only,
/// and it is a total order.
pub proof fn lemma_file_order_lawful()
    ensures
        lawful(file_ordering()),
{
    let ord = file_ordering();
    assert forall|a: FileView, b: FileView| (#[trigger] ord(a, b) is Equal) <==> a == b by {
        lemma_path_pair(a.file, b.file);
        lemma_text_pair(a.file_type, b.file_type);
        lemma_matches_pair(a.matches, b.matches);
    }
    assert forall|a: FileView, b: FileView| (#[trigger] ord(a, b) is Less) <==> (ord(b, a)
        is Greater) by {
        lemma_path_pair(a.file, b.file);
        lemma_text_pair(a.file_type, b.file_type);
        lemma_matches_pair(a.matches, b.matches);
    }
    assert forall|a: FileView, b: FileView, c: FileView|
        (#[trigger] ord(a, b) is Less) && (#[trigger] ord(b, c) is Less) implies ord(a, c)
        is Less by {
        lemma_path_triple(a.file, b.file, c.file);
        lemma_text_triple(a.file_type, b.file_type, c.file_type);
        lemma_matches_pair(a.matches, b.matches);
        lemma_matches_pair(b.matches, c.matches);
        lemma_matches_pair(a.matches, c.matches);
        if (matches_order(a.matches, b.matches) is Less) && (matches_order(b.matches, c.matches)
            is Less) {
            lemma_match_order_lawful();
            lemma_seq_order_transitive(match_ordering(), a.matches, b.matches, c.matches);
        }
    }
}

/// Compares two places.
pub fn order_of_points(a: &Point, b: &Point) -> (r: Order)
    ensures
        r == point_order(*a, *b),
{
    if a.row < b.row {
        Order::Less
    } else if a.row > b.row {
        Order::Greater
    } else if a.column < b.column {
        Order::Less
    } else if a.column > b.column {
        Order::Greater
    } else {
        Order::Equal
    }
}

/// Compares two matches.
pub fn order_of_matches(a: &ExtractedMatch, b: &ExtractedMatch) -> (r: Order)
    ensures
        r == match_order(a@, b@),
{
    let by_kind = order_of_text(a.kind, b.kind);
    if by_kind != Order::Equal {
        return by_kind;
    }
    let by_name = order_of_text(a.name, b.name);
    if by_name != Order::Equal {
        return by_name;
    }
    let by_text = order_of_text(a.text.as_str(), b.text.as_str());
    if by_text != Order::Equal {
        return by_text;
    }
    and_then(order_of_points(&a.start, &b.start), order_of_points(&a.end, &b.end))
}

/// Compares two lists of matches.
pub fn order_of_match_lists(a: &Vec<ExtractedMatch>, b: &Vec<ExtractedMatch>) -> (r: Order)
    ensures
        r == matches_order(
            a@.map_values(|m: ExtractedMatch| m@),
            b@.map_values(|m: ExtractedMatch| m@),
        ),
{
    let ghost x = a@.map_values(|m: ExtractedMatch| m@);
    let ghost y = b@.map_values(|m: ExtractedMatch| m@);
    let mut i: usize = 0;
    while i < a.len() && i < b.len()
        invariant
            i <= a.len(),
            i <= b.len(),
            x == a@.map_values(|m: ExtractedMatch| m@),
            y == b@.map_values(|m: ExtractedMatch| m@),
            x.take(i as int) == y.take(i as int),
        decreases a.len() - i,
    {
        let here = order_of_matches(&a[i], &b[i]);
        proof {
            lemma_match_order_lawful();
            assert(match_ordering()(x[i as int], y[i as int]) == here);
        }
        if here != Order::Equal {
            proof {
                lemma_seq_order_skip(match_ordering(), x, y, i as int);
                assert(x.skip(i as int)[0] == x[i as int]);
                assert(y.skip(i as int)[0] == y[i as int]);
            }
            return here;
        }
        proof {
            assert(x[i as int] == y[i as int]);
            assert(x.take(i + 1) =~= x.take(i as int).push(x[i as int]));
            assert(y.take(i + 1) =~= y.take(i as int).push(y[i as int]));
        }
        i = i + 1;
    }
    proof {
        lemma_match_order_lawful();
        lemma_seq_order_skip(match_ordering(), x, y, i as int);
    }
    if i < b.len() {
        Order::Less
    } else if i < a.len() {
        Order::Greater
    } else {
        Order::Equal
    }
}

/// Compares two file records.
pub fn order_of_files(a: &ExtractedFile, b: &ExtractedFile) -> (r: Order)
    ensures
        r == file_order(a@, b@),
{
    let by_path = match (&a.file, &b.file) {
        (None, None) => Order::Equal,
        (None, Some(_)) => Order::Less,
        (Some(_), None) => Order::Greater,
        (Some(x), Some(y)) => order_of_paths(x.as_str(), y.as_str()),
    };
    if by_path != Order::Equal {
        return by_path;
    }
    let by_type = order_of_text(a.file_type.as_str(), b.file_type.as_str());
    if by_type != Order::Equal {
        return by_type;
    }
    order_of_match_lists(&a.matches, &b.matches)
}

} // verus!
