//! A view of a syntax tree: one line for each node, each node before its
//! children, the children indented under it.
use crate::engine::{assigned, copied, parse, parsed_text, root_node, root_of, syntax_of};
use crate::extractor::Point;
use crate::language::Language;
use crate::text::{decimal, decimal_text};
use vstd::prelude::*;
use vstd::string::*;

verus! {

/// A node of a syntax tree with what the view shows of it.
#[derive(Debug, PartialEq, Eq)]
pub struct SyntaxNode<'s> {
    /// The kind of the node, a tag that the grammar defines.
    pub kind: &'static str,
    /// Where the node starts, counted from zero.
    pub start: Point,
    /// The text of the node; nothing where its bytes are not UTF-8.
    pub text: Option<&'s str>,
    /// The children of the node, in their order.
    pub children: Vec<SyntaxNode<'s>>,
}

/// Why a tree could not be shown.
#[derive(Debug, PartialEq, Eq)]
pub enum TreeViewError {
    /// The parser did not accept the grammar; the engine's complaint is kept.
    Language(String),
    /// The engine gave no tree.
    Parse,
    /// The bytes of a node without children are not UTF-8.
    Text,
}

impl TreeViewError {
    /// What is said of each failure.
    pub open spec fn message(self) -> Seq<char> {
        match self {
            TreeViewError::Language(_) => "could not set language"@,
            TreeViewError::Parse => "could not parse tree"@,
            TreeViewError::Text => "could not get node source"@,
        }
    }

    /// What is said of this failure.
    pub fn to_string(&self) -> (text: String)
        ensures
            text@ == self.message(),
    {
        match self {
            TreeViewError::Language(_) => String::from_str("could not set language"),
            TreeViewError::Parse => String::from_str("could not parse tree"),
            TreeViewError::Text => String::from_str("could not get node source"),
        }
    }
}

/// By how much the children of a node are indented under it.
pub open spec fn indent_step() -> Seq<char> {
    "  "@
}

/// The start of the line of a node: the indentation, the kind, and the
/// row and column where the node starts, counted from one.
pub open spec fn head(node: SyntaxNode, indent: Seq<char>) -> Seq<char> {
    indent + node.kind@ + " "@ + decimal((node.start.row + 1) as nat) + ":"@ + decimal(
        (node.start.column + 1) as nat,
    )
}

/// What is written for a tree, and whether it was written to the end. A
/// node without children shows its text after its head; a node with
/// children shows its head and then its children, indented. Writing stops
/// after the head of the first node without children whose text is
/// missing.
pub open spec fn rendered(node: SyntaxNode, indent: Seq<char>) -> (Seq<char>, bool)
    decreases node,
{
    if node.children@.len() == 0 {
        match node.text {
            Some(text) => (head(node, indent) + ": "@ + text@ + "\n"@, true),
            None => (head(node, indent), false),
        }
    } else {
        let below = rendered_all(node.children@, node.children@.len(), indent + indent_step());
        (head(node, indent) + "\n"@ + below.0, below.1)
    }
}

/// What is written for the first `n` of some trees, one after another, and
/// whether it was written to the end.
pub open spec fn rendered_all(nodes: Seq<SyntaxNode>, n: nat, indent: Seq<char>) -> (
    Seq<char>,
    bool,
)
    decreases nodes, n,
{
    if n == 0 || n > nodes.len() {
        (Seq::empty(), true)
    } else {
        let before = rendered_all(nodes, (n - 1) as nat, indent);
        if before.1 {
            let last = rendered(nodes[n - 1], indent);
            (before.0 + last.0, last.1)
        } else {
            before
        }
    }
}

/// Writes the view of a tree at the end of `out`, every line indented by
/// `indent`. What is written is what `rendered` gives; it fails, and only
/// then, where that was not written to the end.
pub fn write_tree(node: &SyntaxNode, indent: &str, out: &mut String) -> (r: Result<
    (),
    TreeViewError,
>)
    ensures
        final(out)@ == old(out)@ + rendered(*node, indent@).0,
        r is Ok <==> rendered(*node, indent@).1,
        r matches Err(error) ==> error == TreeViewError::Text,
    decreases node,
{
    let ghost before = out@;
    out.append(indent);
    out.append(node.kind);
    out.append(" ");
    out.append(decimal_text(node.start.shown_row()).as_str());
    out.append(":");
    out.append(decimal_text(node.start.shown_column()).as_str());
    assert(out@ =~= before + head(*node, indent@));
    if node.children.len() == 0 {
        match node.text {
            Some(text) => {
                out.append(": ");
                out.append(text);
                out.append("\n");
                assert(out@ =~= before + rendered(*node, indent@).0);
                Ok(())
            },
            None => Err(TreeViewError::Text),
        }
    } else {
        out.append("\n");
        let mut deeper = String::from_str(indent);
        deeper.append("  ");
        let ghost top = before + head(*node, indent@) + "\n"@;
        let mut i: usize = 0;
        assert(out@ =~= top + rendered_all(node.children@, 0, deeper@).0);
        while i < node.children.len()
            invariant
                i <= node.children.len(),
                node.children@.len() > 0,
                before == old(out)@,
                top == before + head(*node, indent@) + "\n"@,
                deeper@ == indent@ + indent_step(),
                out@ == top + rendered_all(node.children@, i as nat, deeper@).0,
                rendered_all(node.children@, i as nat, deeper@).1,
            decreases node.children.len() - i,
        {
            let ghost so_far = out@;
            let child = write_tree(&node.children[i], deeper.as_str(), out);
            proof {
                let now = rendered_all(node.children@, (i + 1) as nat, deeper@);
                assert(out@ =~= top + now.0);
            }
            match child {
                Ok(()) => {},
                Err(error) => {
                    proof {
                        lemma_rendering_stops(
                            node.children@,
                            (i + 1) as nat,
                            node.children@.len(),
                            deeper@,
                        );
                        assert(out@ =~= before + rendered(*node, indent@).0);
                    }
                    return Err(error);
                },
            }
            i = i + 1;
        }
        assert(out@ =~= before + rendered(*node, indent@).0);
        Ok(())
    }
}

/// Once writing has stopped, nothing more is written.
proof fn lemma_rendering_stops(nodes: Seq<SyntaxNode>, n: nat, m: nat, indent: Seq<char>)
    requires
        n <= m <= nodes.len(),
        !rendered_all(nodes, n, indent).1,
    ensures
        rendered_all(nodes, m, indent) == rendered_all(nodes, n, indent),
    decreases m,
{
    if n < m {
        lemma_rendering_stops(nodes, n, (m - 1) as nat, indent);
    }
}

/// Parses a text. A tree that comes back is a tree of `source`, which is
/// what `tree_view` asks of a tree and a text; the parser keeps its
/// language.
pub fn parse_source(parser: &mut tree_sitter::Parser, source: &[u8]) -> (tree: Option<
    tree_sitter::Tree,
>)
    ensures
        tree matches Some(t) ==> parsed_text(t) == source@,
        assigned(*final(parser)) == assigned(*old(parser)),
{
    parse(parser, source)
}

/// The view of a syntax tree of `source`, written at the end of `out`:
/// what `rendered` gives for the copy of the tree, from its root and
/// without indentation. It fails, and only then, where that was not
/// written to the end.
pub fn tree_view(tree: &tree_sitter::Tree, source: &[u8], out: &mut String) -> (r: Result<
    (),
    TreeViewError,
>)
    requires
        parsed_text(*tree) == source@,
    ensures
        final(out)@ == old(out)@ + rendered(copied(root_node(*tree)), Seq::<char>::empty()).0,
        r is Ok <==> rendered(copied(root_node(*tree)), Seq::<char>::empty()).1,
        r matches Err(error) ==> error == TreeViewError::Text,
{
    let root = syntax_of(root_of(tree), source);
    let r = write_tree(&root, "", out);
    proof {
        reveal_strlit("");
        assert(""@ =~= Seq::<char>::empty());
    }
    r
}

/// Whether a tree of a text was viewed: whether what was written is what
/// `rendered` gives for the copy of the tree.
pub open spec fn views(
    source: Seq<u8>,
    tree: tree_sitter::Tree,
    before: Seq<char>,
    after: Seq<char>,
    done: bool,
) -> bool {
    &&& parsed_text(tree) == source
    &&& after == before + rendered(copied(root_node(tree)), Seq::<char>::empty()).0
    &&& done <==> rendered(copied(root_node(tree)), Seq::<char>::empty()).1
}

/// Parses a text as a language and writes the view of its syntax tree at
/// the end of `out`. Where the engine has no parser for the language or
/// gives no tree, nothing is written. Otherwise what `rendered` gives for
/// the copy of the tree of the text is written, and it fails, and only
/// then, where that was not written to the end.
pub fn show_tree(language: Language, source: &[u8], out: &mut String) -> (r: Result<
    (),
    TreeViewError,
>)
    ensures
        old(out)@.is_prefix_of(final(out)@),
        match r {
            Err(TreeViewError::Language(_)) => final(out)@ == old(out)@,
            Err(TreeViewError::Parse) => final(out)@ == old(out)@,
            _ => exists|tree: tree_sitter::Tree| #[trigger]
                views(source@, tree, old(out)@, final(out)@, r is Ok),
        },
{
    let mut parser = match language.parser() {
        Ok(parser) => parser,
        Err(problem) => {
            return Err(TreeViewError::Language(problem.message));
        },
    };
    match parse_source(&mut parser, source) {
        Some(tree) => {
            let r = tree_view(&tree, source, out);
            assert(views(source@, tree, old(out)@, out@, r is Ok));
            r
        },
        None => Err(TreeViewError::Parse),
    }
}

} // verus!
