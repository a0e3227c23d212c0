//! The boundary with the file type matcher of the `ignore` crate, which
//! the file walker uses too: its types, what contracts call its contents,
//! and one small function for each of its operations that the library
//! uses. The contracts here are taken on trust from the crate's source.
use vstd::prelude::*;

verus! {

/// A builder of file type matchers.
#[verifier::external_type_specification]
#[verifier::external_body]
pub struct ExTypesBuilder(ignore::types::TypesBuilder);

/// A file type matcher.
#[verifier::external_type_specification]
#[verifier::external_body]
pub struct ExTypes(ignore::types::Types);

/// The crate's report of a matcher that could not be built.
#[verifier::external_type_specification]
#[verifier::external_body]
pub struct ExError(ignore::Error);

/// What a file type matcher says of a path.
#[derive(Clone, Debug, PartialEq, Eq)]
pub enum FileTypeMatch {
    /// No file type decides.
    Unmatched,
    /// The path is left out, by the file type named if one decided.
    Ignored(Option<String>),
    /// The path is let in, by the file type named if one decided.
    Selected(Option<String>),
}

/// What a `FileTypeMatch` holds, as mathematics.
pub enum FileTypeMatchView {
    Unmatched,
    Ignored(Option<Seq<char>>),
    Selected(Option<Seq<char>>),
}

/// The view of a name that may be missing.
pub open spec fn name_view(name: Option<String>) -> Option<Seq<char>> {
    match name {
        Some(name) => Some(name@),
        None => None,
    }
}

impl View for FileTypeMatch {
    type V = FileTypeMatchView;

    open spec fn view(&self) -> FileTypeMatchView {
        match *self {
            FileTypeMatch::Unmatched => FileTypeMatchView::Unmatched,
            FileTypeMatch::Ignored(name) => FileTypeMatchView::Ignored(name_view(name)),
            FileTypeMatch::Selected(name) => FileTypeMatchView::Selected(name_view(name)),
        }
    }
}

/// The file types that were selected in a builder, in the order of their
/// selection.
pub uninterp spec fn selected(builder: ignore::types::TypesBuilder) -> Seq<Seq<char>>;

/// The file types that a matcher lets in, in the order of their selection.
pub uninterp spec fn chosen(matcher: ignore::types::Types) -> Seq<Seq<char>>;

/// The file types that a builder can make a matcher of: the names that
/// have a definition, every glob of which can be compiled.
pub uninterp spec fn buildable(builder: ignore::types::TypesBuilder) -> Set<Seq<char>>;

/// What a matcher says of a path, `Types::matched`: it is fixed by the
/// matcher, the path and whether the path is a directory.
pub uninterp spec fn decided(matcher: ignore::types::Types, path: Seq<char>, is_dir: bool) ->
    FileTypeMatchView;

/// `TypesBuilder::new`: a builder without definitions and without selections.
#[verifier::external_body]
pub(crate) fn new_builder() -> (builder: ignore::types::TypesBuilder)
    ensures
        selected(builder) == Seq::<Seq<char>>::empty(),
{
    ignore::types::TypesBuilder::new()
}

/// `TypesBuilder::add_defaults`: adds the crate's own definitions of file
/// types and selects nothing. Among the definitions that it adds are those
/// of the file types named here, and their globs can be compiled.
#[verifier::external_body]
pub(crate) fn add_defaults(builder: &mut ignore::types::TypesBuilder)
    ensures
        selected(*final(builder)) == selected(*old(builder)),
        buildable(*old(builder)).subset_of(buildable(*final(builder))),
        buildable(*final(builder)).contains("c"@),
        buildable(*final(builder)).contains("cpp"@),
        buildable(*final(builder)).contains("elixir"@),
        buildable(*final(builder)).contains("elm"@),
        buildable(*final(builder)).contains("go"@),
        buildable(*final(builder)).contains("haskell"@),
        buildable(*final(builder)).contains("java"@),
        buildable(*final(builder)).contains("js"@),
        buildable(*final(builder)).contains("markdown"@),
        buildable(*final(builder)).contains("nix"@),
        buildable(*final(builder)).contains("php"@),
        buildable(*final(builder)).contains("py"@),
        buildable(*final(builder)).contains("ruby"@),
        buildable(*final(builder)).contains("rust"@),
        buildable(*final(builder)).contains("ts"@),
{
    builder.add_defaults();
}

/// `TypesBuilder::select` for one file type. The name `all` is left out:
/// it selects every definition at once. Selecting defines nothing.
#[verifier::external_body]
pub(crate) fn select(builder: &mut ignore::types::TypesBuilder, name: &str)
    requires
        name@ != "all"@,
    ensures
        selected(*final(builder)) == selected(*old(builder)).push(name@),
        buildable(*final(builder)) == buildable(*old(builder)),
{
    builder.select(name);
}

/// `TypesBuilder::build`. It fails only where a selected name has no
/// definition or a glob of its definition cannot be compiled; a matcher
/// that is built lets in the file types that were selected. Success is
/// claimed here for selections without repetition only, which keeps the
/// set of globs as small as the definitions are.
#[verifier::external_body]
pub(crate) fn build(builder: &ignore::types::TypesBuilder) -> (r: Result<
    ignore::types::Types,
    ignore::Error,
>)
    ensures
        r matches Ok(matcher) ==> chosen(matcher) == selected(*builder),
        selected(*builder).no_duplicates() && (forall|i: int|
            0 <= i < selected(*builder).len() ==> buildable(*builder).contains(
                #[trigger] selected(*builder)[i],
            )) ==> r is Ok,
{
    builder.build()
}

/// `Display` of `ignore::Error`.
#[verifier::external_body]
pub(crate) fn error_text(error: &ignore::Error) -> String {
    error.to_string()
}

/// `Types::matched`, with the name of the file type definition that
/// decided, `Glob::file_type_def` and `FileTypeDef::name`, copied out. No
/// file type decides for a directory, and a path is let in by one of the
/// file types that the matcher lets in.
#[verifier::external_body]
pub(crate) fn matched(matcher: &ignore::types::Types, path: &str, is_dir: bool) -> (found:
    FileTypeMatch)
    ensures
        found@ == decided(*matcher, path@, is_dir),
        is_dir ==> found@ is Unmatched,
        found@ matches FileTypeMatchView::Selected(name) ==> name is Some && chosen(
            *matcher,
        ).contains(name->Some_0),
{
    match matcher.matched(path, is_dir) {
        ignore::Match::None => FileTypeMatch::Unmatched,
        ignore::Match::Ignore(glob) => FileTypeMatch::Ignored(
            glob.file_type_def().map(|def| def.name().to_string()),
        ),
        ignore::Match::Whitelist(glob) => FileTypeMatch::Selected(
            glob.file_type_def().map(|def| def.name().to_string()),
        ),
    }
}

} // verus!
