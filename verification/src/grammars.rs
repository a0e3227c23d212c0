//! The grammars: one handle for each language, as the grammar crates
//! publish them. A handle is opaque; all that is claimed of it is which
//! language it is the grammar of.
use crate::engine::speaks;
use crate::language::Language;
use tree_sitter::Language as Grammar;
use vstd::prelude::*;

verus! {

/// `tree_sitter_c::LANGUAGE` as a grammar handle.
#[verifier::external_body]
pub(crate) fn c() -> (grammar: Grammar)
    ensures
        speaks(grammar) == Language::C,
{
    tree_sitter_c::LANGUAGE.into()
}

/// `tree_sitter_cpp::LANGUAGE` as a grammar handle.
#[verifier::external_body]
pub(crate) fn cpp() -> (grammar: Grammar)
    ensures
        speaks(grammar) == Language::Cpp,
{
    tree_sitter_cpp::LANGUAGE.into()
}

/// `tree_sitter_elixir::LANGUAGE` as a grammar handle.
#[verifier::external_body]
pub(crate) fn elixir() -> (grammar: Grammar)
    ensures
        speaks(grammar) == Language::Elixir,
{
    tree_sitter_elixir::LANGUAGE.into()
}

/// `tree_sitter_elm::LANGUAGE` as a grammar handle.
#[verifier::external_body]
pub(crate) fn elm() -> (grammar: Grammar)
    ensures
        speaks(grammar) == Language::Elm,
{
    tree_sitter_elm::LANGUAGE.into()
}

/// `tree_sitter_go::LANGUAGE` as a grammar handle.
#[verifier::external_body]
pub(crate) fn go() -> (grammar: Grammar)
    ensures
        speaks(grammar) == Language::Go,
{
    tree_sitter_go::LANGUAGE.into()
}

/// `tree_sitter_haskell::LANGUAGE` as a grammar handle.
#[verifier::external_body]
pub(crate) fn haskell() -> (grammar: Grammar)
    ensures
        speaks(grammar) == Language::Haskell,
{
    tree_sitter_haskell::LANGUAGE.into()
}

/// `tree_sitter_java::LANGUAGE` as a grammar handle.
#[verifier::external_body]
pub(crate) fn java() -> (grammar: Grammar)
    ensures
        speaks(grammar) == Language::Java,
{
    tree_sitter_java::LANGUAGE.into()
}

/// `tree_sitter_javascript::LANGUAGE` as a grammar handle.
#[verifier::external_body]
pub(crate) fn javascript() -> (grammar: Grammar)
    ensures
        speaks(grammar) == Language::JavaScript,
{
    tree_sitter_javascript::LANGUAGE.into()
}

/// `tree_sitter_md::LANGUAGE`, the grammar of Markdown's block structure,
/// as a grammar handle.
#[verifier::external_body]
pub(crate) fn markdown() -> (grammar: Grammar)
    ensures
        speaks(grammar) == Language::Markdown,
{
    tree_sitter_md::LANGUAGE.into()
}

/// `tree_sitter_nix::LANGUAGE` as a grammar handle.
#[verifier::external_body]
pub(crate) fn nix() -> (grammar: Grammar)
    ensures
        speaks(grammar) == Language::Nix,
{
    tree_sitter_nix::LANGUAGE.into()
}

/// `tree_sitter_php::LANGUAGE_PHP`, PHP embedded in HTML, as a grammar handle.
#[verifier::external_body]
pub(crate) fn php() -> (grammar: Grammar)
    ensures
        speaks(grammar) == Language::Php,
{
    tree_sitter_php::LANGUAGE_PHP.into()
}

/// `tree_sitter_python::LANGUAGE` as a grammar handle.
#[verifier::external_body]
pub(crate) fn python() -> (grammar: Grammar)
    ensures
        speaks(grammar) == Language::Python,
{
    tree_sitter_python::LANGUAGE.into()
}

/// `tree_sitter_ruby::LANGUAGE` as a grammar handle.
#[verifier::external_body]
pub(crate) fn ruby() -> (grammar: Grammar)
    ensures
        speaks(grammar) == Language::Ruby,
{
    tree_sitter_ruby::LANGUAGE.into()
}

/// `tree_sitter_rust::LANGUAGE` as a grammar handle.
#[verifier::external_body]
pub(crate) fn rust() -> (grammar: Grammar)
    ensures
        speaks(grammar) == Language::Rust,
{
    tree_sitter_rust::LANGUAGE.into()
}

/// `tree_sitter_typescript::LANGUAGE_TYPESCRIPT` as a grammar handle.
#[verifier::external_body]
pub(crate) fn typescript() -> (grammar: Grammar)
    ensures
        speaks(grammar) == Language::TypeScript,
{
    tree_sitter_typescript::LANGUAGE_TYPESCRIPT.into()
}

} // verus!
