//! The boundary with the tree-sitter engine: the engine's types, the names
//! under which contracts speak of what the engine computes, and one small
//! function for each of its operations that the library uses. Nothing in
//! this file is proved; every contract here is taken on trust from the
//! engine's source.
use crate::extractor::{capture_views, Capture, CaptureView, Point};
use crate::language::Language;
use crate::tree_view::SyntaxNode;
use tree_sitter::Language as Grammar;
use tree_sitter::StreamingIterator;
use vstd::prelude::*;

verus! {

/// A grammar handle of the engine, `tree_sitter::Language`.
#[verifier::external_type_specification]
#[verifier::external_body]
pub struct ExGrammar(Grammar);

/// A compiled query.
#[verifier::external_type_specification]
#[verifier::external_body]
pub struct ExQuery(tree_sitter::Query);

/// The engine's report of a pattern it could not compile.
#[verifier::external_type_specification]
#[verifier::external_body]
pub struct ExQueryError(tree_sitter::QueryError);

/// The engine's report of a grammar that a parser cannot use.
#[verifier::external_type_specification]
#[verifier::external_body]
pub struct ExLanguageError(tree_sitter::LanguageError);

/// A parser.
#[verifier::external_type_specification]
#[verifier::external_body]
pub struct ExParser(tree_sitter::Parser);

/// A syntax tree.
#[verifier::external_type_specification]
#[verifier::external_body]
pub struct ExTree(tree_sitter::Tree);

/// A node of a syntax tree.
#[verifier::external_type_specification]
#[verifier::external_body]
pub struct ExNode<'tree>(tree_sitter::Node<'tree>);

/// The capture names of a compiled query, in the order in which the engine
/// numbers them.
pub uninterp spec fn capture_names(query: tree_sitter::Query) -> Seq<Seq<char>>;

/// What the engine makes of a pattern for a language: the capture names of
/// the compiled query, or the text of its complaint.
pub uninterp spec fn compiled(language: Language, pattern: Seq<char>) -> Result<
    Seq<Seq<char>>,
    Seq<char>,
>;

/// The text that the engine's report of a rejected pattern displays.
pub uninterp spec fn complaint(error: tree_sitter::QueryError) -> Seq<char>;

/// The bytes that a syntax tree was parsed from.
pub uninterp spec fn parsed_text(tree: tree_sitter::Tree) -> Seq<u8>;

/// The bytes that the tree of a node was parsed from.
pub uninterp spec fn text_around(node: tree_sitter::Node) -> Seq<u8>;

/// What a query catches in a tree, match by match, `QueryCursor::matches`
/// from the root of the tree with the tree's own text.
pub uninterp spec fn caught(query: tree_sitter::Query, tree: tree_sitter::Tree) -> Seq<
    Seq<CaptureView>,
>;

/// The root of a tree, `Tree::root_node`.
pub uninterp spec fn root_node(tree: tree_sitter::Tree) -> tree_sitter::Node<'static>;

/// A node and all that is below it as plain records.
pub uninterp spec fn copied(node: tree_sitter::Node) -> SyntaxNode<'static>;

/// The S-expression that the engine writes for a node, `Node::to_sexp`.
pub uninterp spec fn written(node: tree_sitter::Node) -> Seq<char>;

/// The language that a grammar handle is the grammar of.
pub uninterp spec fn speaks(grammar: Grammar) -> Language;

/// The language that a parser has assigned, if it has one: the language of
/// what `Parser::language` gives.
pub uninterp spec fn assigned(parser: tree_sitter::Parser) -> Option<Language>;

/// `tree_sitter::Query::new`. The outcome depends on the grammar and the
/// pattern alone, so it is named `compiled`, by the language of the
/// grammar; a compiled query holds the names that `compiled` gives.
#[verifier::external_body]
pub(crate) fn compile(grammar: &Grammar, raw: &str) -> (r: Result<
    tree_sitter::Query,
    tree_sitter::QueryError,
>)
    ensures
        match r {
            Ok(query) => compiled(speaks(*grammar), raw@) == Ok::<Seq<Seq<char>>, Seq<char>>(
                capture_names(query),
            ),
            Err(error) => compiled(speaks(*grammar), raw@) == Err::<Seq<Seq<char>>, Seq<char>>(
                complaint(error),
            ),
        },
{
    tree_sitter::Query::new(grammar, raw)
}

/// `Display` of `tree_sitter::QueryError`: the text of the report.
#[verifier::external_body]
pub(crate) fn complaint_text(error: &tree_sitter::QueryError) -> (text: String)
    ensures
        text@ == complaint(*error),
{
    error.to_string()
}

/// `tree_sitter::Query::capture_names`, each name copied into a `String`.
#[verifier::external_body]
pub(crate) fn names_of(query: &tree_sitter::Query) -> (names: Vec<String>)
    ensures
        names.deep_view() == capture_names(*query),
{
    query.capture_names().iter().map(|name| name.to_string()).collect()
}

/// `tree_sitter::Parser::new`.
#[verifier::external_body]
pub(crate) fn new_parser() -> tree_sitter::Parser {
    tree_sitter::Parser::new()
}

/// `tree_sitter::Parser::set_language`. It fails when the grammar was
/// generated for a version of the engine that this one cannot read; where
/// it does not fail, the parser has the grammar assigned.
#[verifier::external_body]
pub(crate) fn set_language(parser: &mut tree_sitter::Parser, grammar: &Grammar) -> (r: Result<
    (),
    tree_sitter::LanguageError,
>)
    ensures
        r is Ok ==> assigned(*final(parser)) == Some(speaks(*grammar)),
{
    parser.set_language(grammar)
}

/// `Display` of `tree_sitter::LanguageError`.
#[verifier::external_body]
pub(crate) fn language_error_text(error: &tree_sitter::LanguageError) -> String {
    error.to_string()
}

/// `tree_sitter::Parser::parse` without an earlier tree. A tree that comes
/// back is a tree of `source`: every node of it spans bytes of `source`.
/// Parsing leaves the parser's language as it is.
#[verifier::external_body]
pub(crate) fn parse(parser: &mut tree_sitter::Parser, source: &[u8]) -> (tree: Option<
    tree_sitter::Tree,
>)
    ensures
        tree matches Some(t) ==> parsed_text(t) == source@,
        assigned(*final(parser)) == assigned(*old(parser)),
{
    parser.parse(source, None)
}

/// Runs a query over a tree with a fresh `tree_sitter::QueryCursor` and
/// hands out what `QueryCursor::matches` yields, match by match, each
/// captured node as a plain record: its capture index, `Node::kind`,
/// `Node::utf8_text` (nothing where the bytes are not UTF-8),
/// `Node::start_position` and `Node::end_position`. What is caught
/// depends on the query and the tree alone, and the index of a capture is
/// its place among the query's capture names.
#[verifier::external_body]
pub(crate) fn captures_of<'s>(
    query: &tree_sitter::Query,
    tree: &tree_sitter::Tree,
    source: &'s [u8],
) -> (found: Vec<Vec<Capture<'s>>>)
    requires
        parsed_text(*tree) == source@,
    ensures
        capture_views(found@) == caught(*query, *tree),
        forall|i: int, j: int|
            0 <= i < found.len() && 0 <= j < found[i].len() ==> (#[trigger] found[i][j]).index
                < capture_names(*query).len(),
{
    let mut cursor = tree_sitter::QueryCursor::new();
    let mut matches = cursor.matches(query, tree.root_node(), source);
    let mut found = Vec::new();
    while let Some(m) = matches.next() {
        found.push(m.captures.iter().map(|c| Capture {
            index: c.index,
            kind: c.node.kind(),
            text: c.node.utf8_text(source).ok(),
            start: Point { row: c.node.start_position().row, column: c.node.start_position().column },
            end: Point { row: c.node.end_position().row, column: c.node.end_position().column },
        }).collect());
    }
    found
}

/// `tree_sitter::Tree::root_node`. The root is a node of the tree's text.
#[verifier::external_body]
pub(crate) fn root_of<'t>(tree: &'t tree_sitter::Tree) -> (root: tree_sitter::Node<'t>)
    ensures
        root == root_node(*tree),
        text_around(root) == parsed_text(*tree),
{
    tree.root_node()
}

/// Copies a node and all that is below it into plain records: for each
/// node its `Node::kind`, `Node::start_position`, `Node::utf8_text`
/// (nothing where the bytes are not UTF-8) and, in their order, its
/// `Node::children`. The copy depends on the node alone.
#[verifier::external_body]
pub(crate) fn syntax_of<'s>(node: tree_sitter::Node, source: &'s [u8]) -> (copy: SyntaxNode<'s>)
    requires
        text_around(node) == source@,
    ensures
        copy == copied(node),
{
    SyntaxNode {
        kind: node.kind(),
        start: Point { row: node.start_position().row, column: node.start_position().column },
        text: node.utf8_text(source).ok(),
        children: node.children(&mut node.walk()).map(|child| syntax_of(child, source)).collect(),
    }
}

/// `tree_sitter::Query::pattern_count`.
#[verifier::external_body]
pub(crate) fn pattern_count(query: &tree_sitter::Query) -> usize {
    query.pattern_count()
}

/// `tree_sitter::Node::to_sexp`: what is written depends on the node alone.
#[verifier::external_body]
pub(crate) fn sexp_of(node: &tree_sitter::Node) -> (text: String)
    ensures
        text@ == written(*node),
{
    node.to_sexp()
}

} // verus!
