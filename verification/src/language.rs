//! The languages that can be searched: their names, the file types they
//! are routed by, and their grammars.
use crate::engine::{
    capture_names, assigned, compile, compiled, complaint_text, language_error_text,
    new_parser, set_language, speaks,
};
use crate::grammars;
use crate::order::Order;
use crate::text::{
    join, joined, lemma_ascii_less_at, lemma_text_order_equal, lemma_text_order_flips,
    lemma_text_order_transitive, order_of_text, text_order,
};
use tree_sitter::Language as Grammar;
use vstd::prelude::*;
use vstd::string::*;

verus! {

/// A language that can be searched.
#[derive(Clone, Copy, PartialEq, Eq, Hash, Debug, Structural)]
pub enum Language {
    C,
    Cpp,
    Elixir,
    Elm,
    Go,
    Haskell,
    Java,
    JavaScript,
    Markdown,
    Nix,
    Php,
    Python,
    Ruby,
    Rust,
    TypeScript,
}

/// How many languages there are.
pub const LANGUAGE_COUNT: usize = 15;

/// A language name that is not in the catalogue.
#[derive(Clone, Debug, PartialEq, Eq)]
pub struct UnknownLanguage {
    /// The name as it was given.
    pub name: String,
}

/// A pattern that the engine rejected.
#[derive(Clone, Debug, PartialEq, Eq)]
pub struct QueryProblem {
    /// The engine's complaint, which gives the row and column of the fault.
    pub message: String,
}

/// A grammar that the engine cannot load into a parser.
#[derive(Clone, Debug, PartialEq, Eq)]
pub struct GrammarProblem {
    /// The engine's complaint.
    pub message: String,
}

impl QueryProblem {
    /// The engine's complaint.
    pub fn to_string(&self) -> (text: String)
        ensures
            text@ == self.message@,
    {
        self.message.clone()
    }
}

impl GrammarProblem {
    /// The engine's complaint.
    pub fn to_string(&self) -> (text: String)
        ensures
            text@ == self.message@,
    {
        self.message.clone()
    }
}

impl Language {
    /// The language at a place of the catalogue, which lists the languages
    /// in the order of their names.
    pub open spec fn at(i: int) -> Language {
        if i == 0 {
            Language::C
        } else if i == 1 {
            Language::Cpp
        } else if i == 2 {
            Language::Elixir
        } else if i == 3 {
            Language::Elm
        } else if i == 4 {
            Language::Go
        } else if i == 5 {
            Language::Haskell
        } else if i == 6 {
            Language::Java
        } else if i == 7 {
            Language::JavaScript
        } else if i == 8 {
            Language::Markdown
        } else if i == 9 {
            Language::Nix
        } else if i == 10 {
            Language::Php
        } else if i == 11 {
            Language::Python
        } else if i == 12 {
            Language::Ruby
        } else if i == 13 {
            Language::Rust
        } else {
            Language::TypeScript
        }
    }

    /// The place of a language in the catalogue.
    pub open spec fn index(self) -> int {
        match self {
            Language::C => 0,
            Language::Cpp => 1,
            Language::Elixir => 2,
            Language::Elm => 3,
            Language::Go => 4,
            Language::Haskell => 5,
            Language::Java => 6,
            Language::JavaScript => 7,
            Language::Markdown => 8,
            Language::Nix => 9,
            Language::Php => 10,
            Language::Python => 11,
            Language::Ruby => 12,
            Language::Rust => 13,
            Language::TypeScript => 14,
        }
    }

    /// The name by which a language is asked for and reported.
    pub open spec fn canonical_name(self) -> Seq<char> {
        match self {
            Language::C => "c"@,
            Language::Cpp => "cpp"@,
            Language::Elixir => "elixir"@,
            Language::Elm => "elm"@,
            Language::Go => "go"@,
            Language::Haskell => "haskell"@,
            Language::Java => "java"@,
            Language::JavaScript => "javascript"@,
            Language::Markdown => "markdown"@,
            Language::Nix => "nix"@,
            Language::Php => "php"@,
            Language::Python => "python"@,
            Language::Ruby => "ruby"@,
            Language::Rust => "rust"@,
            Language::TypeScript => "typescript"@,
        }
    }

    /// The name of the file type by which files are routed to a language.
    pub open spec fn file_type(self) -> Seq<char> {
        match self {
            Language::C => "c"@,
            Language::Cpp => "cpp"@,
            Language::Elixir => "elixir"@,
            Language::Elm => "elm"@,
            Language::Go => "go"@,
            Language::Haskell => "haskell"@,
            Language::Java => "java"@,
            Language::JavaScript => "js"@,
            Language::Markdown => "markdown"@,
            Language::Nix => "nix"@,
            Language::Php => "php"@,
            Language::Python => "py"@,
            Language::Ruby => "ruby"@,
            Language::Rust => "rust"@,
            Language::TypeScript => "ts"@,
        }
    }

    /// The whole catalogue.
    pub open spec fn catalogue() -> Seq<Language> {
        Seq::new(LANGUAGE_COUNT as nat, |i: int| Language::at(i))
    }

    /// The names of the catalogue, in its order.
    pub open spec fn catalogue_names() -> Seq<Seq<char>> {
        Seq::new(LANGUAGE_COUNT as nat, |i: int| Language::at(i).canonical_name())
    }

    /// The language with a given name, if there is one.
    pub open spec fn named(name: Seq<char>) -> Option<Language> {
        if exists|l: Language| l.canonical_name() == name {
            Some(choose|l: Language| l.canonical_name() == name)
        } else {
            None
        }
    }

    /// The place of this language in the catalogue.
    pub fn position(&self) -> (i: usize)
        ensures
            i == self.index(),
            i < LANGUAGE_COUNT,
            Language::at(i as int) == *self,
    {
        match self {
            Language::C => 0,
            Language::Cpp => 1,
            Language::Elixir => 2,
            Language::Elm => 3,
            Language::Go => 4,
            Language::Haskell => 5,
            Language::Java => 6,
            Language::JavaScript => 7,
            Language::Markdown => 8,
            Language::Nix => 9,
            Language::Php => 10,
            Language::Python => 11,
            Language::Ruby => 12,
            Language::Rust => 13,
            Language::TypeScript => 14,
        }
    }

    /// The language at a place of the catalogue, if the place exists.
    pub fn from_repr(i: usize) -> (r: Option<Language>)
        ensures
            i < LANGUAGE_COUNT ==> r == Some(Language::at(i as int)),
            i >= LANGUAGE_COUNT ==> r is None,
    {
        if i == 0 {
            Some(Language::C)
        } else if i == 1 {
            Some(Language::Cpp)
        } else if i == 2 {
            Some(Language::Elixir)
        } else if i == 3 {
            Some(Language::Elm)
        } else if i == 4 {
            Some(Language::Go)
        } else if i == 5 {
            Some(Language::Haskell)
        } else if i == 6 {
            Some(Language::Java)
        } else if i == 7 {
            Some(Language::JavaScript)
        } else if i == 8 {
            Some(Language::Markdown)
        } else if i == 9 {
            Some(Language::Nix)
        } else if i == 10 {
            Some(Language::Php)
        } else if i == 11 {
            Some(Language::Python)
        } else if i == 12 {
            Some(Language::Ruby)
        } else if i == 13 {
            Some(Language::Rust)
        } else if i == 14 {
            Some(Language::TypeScript)
        } else {
            None
        }
    }

    /// Every language, in the order of the catalogue.
    pub fn all() -> (languages: Vec<Language>)
        ensures
            languages@ == Language::catalogue(),
    {
        let mut languages: Vec<Language> = Vec::new();
        let mut i: usize = 0;
        while i < LANGUAGE_COUNT
            invariant
                i <= LANGUAGE_COUNT,
                languages@ == Seq::new(i as nat, |k: int| Language::at(k)),
            decreases LANGUAGE_COUNT - i,
        {
            match Language::from_repr(i) {
                Some(language) => {
                    languages.push(language);
                    assert(languages@ =~= Seq::new((i + 1) as nat, |k: int| Language::at(k)));
                },
                None => {},
            }
            i = i + 1;
        }
        languages
    }

    /// The name by which this language is asked for and reported.
    pub fn name(&self) -> (name: &'static str)
        ensures
            name@ == self.canonical_name(),
    {
        match self {
            Language::C => "c",
            Language::Cpp => "cpp",
            Language::Elixir => "elixir",
            Language::Elm => "elm",
            Language::Go => "go",
            Language::Haskell => "haskell",
            Language::Java => "java",
            Language::JavaScript => "javascript",
            Language::Markdown => "markdown",
            Language::Nix => "nix",
            Language::Php => "php",
            Language::Python => "python",
            Language::Ruby => "ruby",
            Language::Rust => "rust",
            Language::TypeScript => "typescript",
        }
    }

    /// The name of this language as an owned text.
    pub fn to_string(&self) -> (name: String)
        ensures
            name@ == self.canonical_name(),
    {
        String::from_str(self.name())
    }

    /// The name of the file type by which files are routed to this language.
    /// It is not always the language's own name.
    pub fn name_for_types_builder(&self) -> (name: &str)
        ensures
            name@ == self.file_type(),
    {
        match self {
            Language::C => "c",
            Language::Cpp => "cpp",
            Language::Elixir => "elixir",
            Language::Elm => "elm",
            Language::Go => "go",
            Language::Haskell => "haskell",
            Language::Java => "java",
            Language::JavaScript => "js",
            Language::Markdown => "markdown",
            Language::Nix => "nix",
            Language::Php => "php",
            Language::Python => "py",
            Language::Ruby => "ruby",
            Language::Rust => "rust",
            Language::TypeScript => "ts",
        }
    }

    /// Finds a language by its name, by bisecting the catalogue.
    pub fn from_str(s: &str) -> (r: Result<Language, UnknownLanguage>)
        ensures
            match r {
                Ok(language) => Language::named(s@) == Some(language),
                Err(unknown) => Language::named(s@) is None && unknown.name@ == s@,
            },
    {
        let mut low: usize = 0;
        let mut high: usize = LANGUAGE_COUNT;
        while low < high
            invariant
                low <= high <= LANGUAGE_COUNT,
                forall|k: int|
                    0 <= k < low ==> text_order(
                        (#[trigger] Language::at(k)).canonical_name(),
                        s@,
                    ) is Less,
                forall|k: int|
                    high <= k < LANGUAGE_COUNT ==> text_order(
                        (#[trigger] Language::at(k)).canonical_name(),
                        s@,
                    ) is Greater,
            decreases high - low,
        {
            let middle: usize = low + (high - low) / 2;
            let language = match Language::from_repr(middle) {
                Some(language) => language,
                None => {
                    return Err(UnknownLanguage { name: String::from_str(s) });
                },
            };
            proof {
                let here = language.canonical_name();
                lemma_text_order_equal(here, s@);
                lemma_text_order_flips(here, s@);
                lemma_text_order_flips(s@, here);
                if text_order(here, s@) is Less {
                    assert forall|k: int| 0 <= k < middle + 1 implies text_order(
                        (#[trigger] Language::at(k)).canonical_name(),
                        s@,
                    ) is Less by {
                        if k < middle {
                            lemma_ascend_between(k, middle as int);
                            lemma_text_order_transitive(
                                Language::at(k).canonical_name(),
                                here,
                                s@,
                            );
                        }
                    }
                }
                if text_order(here, s@) is Greater {
                    assert forall|k: int| middle <= k < LANGUAGE_COUNT implies text_order(
                        (#[trigger] Language::at(k)).canonical_name(),
                        s@,
                    ) is Greater by {
                        let name = Language::at(k).canonical_name();
                        if middle < k {
                            lemma_ascend_between(middle as int, k);
                            lemma_text_order_transitive(s@, here, name);
                            lemma_text_order_flips(s@, name);
                        }
                    }
                }
                if text_order(here, s@) is Equal {
                    lemma_named(language);
                }
            }
            match order_of_text(language.name(), s) {
                Order::Equal => {
                    return Ok(language);
                },
                Order::Less => {
                    low = middle + 1;
                },
                Order::Greater => {
                    high = middle;
                },
            }
        }
        proof {
            assert forall|l: Language| l.canonical_name() != s@ by {
                let k = l.index();
                assert(Language::at(k) == l);
                lemma_text_order_equal(l.canonical_name(), s@);
            }
        }
        Err(UnknownLanguage { name: String::from_str(s) })
    }

    /// The grammar of this language.
    pub fn language(&self) -> (grammar: Grammar)
        ensures
            speaks(grammar) == *self,
    {
        match self {
            Language::C => grammars::c(),
            Language::Cpp => grammars::cpp(),
            Language::Elixir => grammars::elixir(),
            Language::Elm => grammars::elm(),
            Language::Go => grammars::go(),
            Language::Haskell => grammars::haskell(),
            Language::Java => grammars::java(),
            Language::JavaScript => grammars::javascript(),
            Language::Markdown => grammars::markdown(),
            Language::Nix => grammars::nix(),
            Language::Php => grammars::php(),
            Language::Python => grammars::python(),
            Language::Ruby => grammars::ruby(),
            Language::Rust => grammars::rust(),
            Language::TypeScript => grammars::typescript(),
        }
    }

    /// A parser that is set up for this language. Whether the engine takes
    /// the grammar is the engine's affair; a parser that comes back has
    /// this language assigned.
    pub fn parser(&self) -> (r: Result<tree_sitter::Parser, GrammarProblem>)
        ensures
            r matches Ok(parser) ==> assigned(parser) == Some(*self),
    {
        let mut parser = new_parser();
        match set_language(&mut parser, &self.language()) {
            Ok(()) => Ok(parser),
            Err(error) => Err(GrammarProblem { message: language_error_text(&error) }),
        }
    }

    /// Compiles a pattern for this language. What comes back is what the
    /// engine makes of the pattern: the query, which holds the capture names
    /// that `compiled` gives, or the engine's complaint.
    pub fn parse_query(&self, raw: &str) -> (r: Result<tree_sitter::Query, QueryProblem>)
        ensures
            match r {
                Ok(query) => compiled(*self, raw@) == Ok::<Seq<Seq<char>>, Seq<char>>(
                    capture_names(query),
                ),
                Err(problem) => compiled(*self, raw@) == Err::<Seq<Seq<char>>, Seq<char>>(
                    problem.message@,
                ),
            },
    {
        match compile(&self.language(), raw) {
            Ok(query) => Ok(query),
            Err(error) => Err(QueryProblem { message: complaint_text(&error) }),
        }
    }
}

impl UnknownLanguage {
    /// What is said of a name that is not in the catalogue.
    pub open spec fn message(name: Seq<char>) -> Seq<char> {
        "unknown language "@ + name + ". Try one of: "@ + joined(
            Language::catalogue_names(),
            ", "@,
        )
    }

    /// The complaint: the name, and the names that would have been accepted.
    pub fn to_string(&self) -> (text: String)
        ensures
            text@ == UnknownLanguage::message(self.name@),
    {
        let languages = Language::all();
        let mut names: Vec<String> = Vec::new();
        let mut i: usize = 0;
        while i < languages.len()
            invariant
                i <= languages.len(),
                languages@ == Language::catalogue(),
                names@.len() == i,
                forall|k: int| 0 <= k < i ==> (#[trigger] names@[k])@ == Language::at(k).canonical_name(),
            decreases languages.len() - i,
        {
            let name = languages[i].to_string();
            names.push(name);
            i = i + 1;
        }
        assert(names.deep_view() =~= Language::catalogue_names());
        let mut text = String::from_str("unknown language ");
        text.append(self.name.as_str());
        text.append(". Try one of: ");
        text.append(join(&names, ", ").as_str());
        text
    }
}

/// The names of some languages, each on a line of its own.
pub open spec fn listing(languages: Seq<Language>) -> Seq<char>
    decreases languages.len(),
{
    if languages.len() == 0 {
        Seq::empty()
    } else {
        listing(languages.drop_last()) + languages.last().canonical_name() + "\n"@
    }
}

/// The list of the languages: the name of each, in the order of the
/// catalogue, each on a line of its own.
pub fn show_languages() -> (text: String)
    ensures
        text@ == listing(Language::catalogue()),
{
    let languages = Language::all();
    let mut text = String::new();
    let mut i: usize = 0;
    assert(languages@.take(0) =~= Seq::<Language>::empty());
    while i < languages.len()
        invariant
            i <= languages.len(),
            languages@ == Language::catalogue(),
            text@ == listing(languages@.take(i as int)),
        decreases languages.len() - i,
    {
        let ghost before = text@;
        text.append(languages[i].name());
        text.append("\n");
        proof {
            let now = languages@.take(i + 1);
            assert(now.drop_last() =~= languages@.take(i as int));
            assert(now.last() == languages@[i as int]);
            assert(text@ =~= before + languages@[i as int].canonical_name() + "\n"@);
        }
        i = i + 1;
    }
    assert(languages@.take(i as int) =~= languages@);
    text
}

/// Each name of the catalogue comes before the next one.
proof fn lemma_neighbours_ascend()
    ensures
        forall|i: int|
            0 <= i < LANGUAGE_COUNT - 1 ==> text_order(
                (#[trigger] Language::at(i)).canonical_name(),
                Language::at(i + 1).canonical_name(),
            ) is Less,
{
    reveal_strlit("c");
    reveal_strlit("cpp");
    reveal_strlit("elixir");
    reveal_strlit("elm");
    reveal_strlit("go");
    reveal_strlit("haskell");
    reveal_strlit("java");
    reveal_strlit("javascript");
    reveal_strlit("markdown");
    reveal_strlit("nix");
    reveal_strlit("php");
    reveal_strlit("python");
    reveal_strlit("ruby");
    reveal_strlit("rust");
    reveal_strlit("typescript");
    lemma_ascii_less_at("c"@, "cpp"@, 1);
    lemma_ascii_less_at("cpp"@, "elixir"@, 0);
    lemma_ascii_less_at("elixir"@, "elm"@, 2);
    lemma_ascii_less_at("elm"@, "go"@, 0);
    lemma_ascii_less_at("go"@, "haskell"@, 0);
    lemma_ascii_less_at("haskell"@, "java"@, 0);
    lemma_ascii_less_at("java"@, "javascript"@, 4);
    lemma_ascii_less_at("javascript"@, "markdown"@, 0);
    lemma_ascii_less_at("markdown"@, "nix"@, 0);
    lemma_ascii_less_at("nix"@, "php"@, 0);
    lemma_ascii_less_at("php"@, "python"@, 1);
    lemma_ascii_less_at("python"@, "ruby"@, 0);
    lemma_ascii_less_at("ruby"@, "rust"@, 2);
    lemma_ascii_less_at("rust"@, "typescript"@, 0);
}

/// The name at an earlier place of the catalogue comes before the name at
/// a later place.
pub proof fn lemma_ascend_between(i: int, j: int)
    requires
        0 <= i < j < LANGUAGE_COUNT,
    ensures
        text_order(Language::at(i).canonical_name(), Language::at(j).canonical_name()) is Less,
    decreases j - i,
{
    if j == i + 1 {
        lemma_step(i);
    } else {
        lemma_ascend_between(i, j - 1);
        lemma_step(j - 1);
        lemma_text_order_transitive(
            Language::at(i).canonical_name(),
            Language::at(j - 1).canonical_name(),
            Language::at(j).canonical_name(),
        );
    }
}

proof fn lemma_step(i: int)
    requires
        0 <= i < LANGUAGE_COUNT - 1,
    ensures
        text_order(Language::at(i).canonical_name(), Language::at(i + 1).canonical_name()) is Less,
{
    lemma_neighbours_ascend();
}

/// The catalogue is in the strict order of its names: a language that
/// stands earlier has the smaller name.
pub proof fn lemma_names_ascend(a: Language, b: Language)
    requires
        a.index() < b.index(),
    ensures
        text_order(a.canonical_name(), b.canonical_name()) is Less,
{
    lemma_ascend_between(a.index(), b.index());
    assert(Language::at(a.index()) == a);
    assert(Language::at(b.index()) == b);
}

/// No two languages share a name.
pub proof fn lemma_names_differ(a: Language, b: Language)
    requires
        a != b,
    ensures
        a.canonical_name() != b.canonical_name(),
{
    assert(a.index() != b.index());
    if a.index() < b.index() {
        lemma_names_ascend(a, b);
        lemma_text_order_equal(a.canonical_name(), b.canonical_name());
    } else {
        lemma_names_ascend(b, a);
        lemma_text_order_equal(b.canonical_name(), a.canonical_name());
    }
}

/// Looking a language up by its own name finds that language: writing a
/// language's name and reading it back gives the language again.
pub proof fn lemma_named(language: Language)
    ensures
        Language::named(language.canonical_name()) == Some(language),
{
    let found = choose|l: Language| l.canonical_name() == language.canonical_name();
    if found != language {
        lemma_names_differ(found, language);
    }
}

/// No file type is called `all`, the name by which the file type matcher
/// means every file type at once.
pub proof fn lemma_file_type_is_not_all(language: Language)
    ensures
        language.file_type() != "all"@,
{
    reveal_strlit("all");
    reveal_strlit("c");
    reveal_strlit("cpp");
    reveal_strlit("elixir");
    reveal_strlit("elm");
    reveal_strlit("go");
    reveal_strlit("haskell");
    reveal_strlit("java");
    reveal_strlit("js");
    reveal_strlit("markdown");
    reveal_strlit("nix");
    reveal_strlit("php");
    reveal_strlit("py");
    reveal_strlit("ruby");
    reveal_strlit("rust");
    reveal_strlit("ts");
    let name = language.file_type();
    if name.len() == 3 {
        assert(name[0] != 'a');
    }
}

/// Each file type of the catalogue comes before the next one.
proof fn lemma_file_type_neighbours_ascend()
    ensures
        forall|i: int|
            0 <= i < LANGUAGE_COUNT - 1 ==> text_order(
                (#[trigger] Language::at(i)).file_type(),
                Language::at(i + 1).file_type(),
            ) is Less,
{
    reveal_strlit("c");
    reveal_strlit("cpp");
    reveal_strlit("elixir");
    reveal_strlit("elm");
    reveal_strlit("go");
    reveal_strlit("haskell");
    reveal_strlit("java");
    reveal_strlit("js");
    reveal_strlit("markdown");
    reveal_strlit("nix");
    reveal_strlit("php");
    reveal_strlit("py");
    reveal_strlit("ruby");
    reveal_strlit("rust");
    reveal_strlit("ts");
    lemma_ascii_less_at("c"@, "cpp"@, 1);
    lemma_ascii_less_at("cpp"@, "elixir"@, 0);
    lemma_ascii_less_at("elixir"@, "elm"@, 2);
    lemma_ascii_less_at("elm"@, "go"@, 0);
    lemma_ascii_less_at("go"@, "haskell"@, 0);
    lemma_ascii_less_at("haskell"@, "java"@, 0);
    lemma_ascii_less_at("java"@, "js"@, 1);
    lemma_ascii_less_at("js"@, "markdown"@, 0);
    lemma_ascii_less_at("markdown"@, "nix"@, 0);
    lemma_ascii_less_at("nix"@, "php"@, 0);
    lemma_ascii_less_at("php"@, "py"@, 1);
    lemma_ascii_less_at("py"@, "ruby"@, 0);
    lemma_ascii_less_at("ruby"@, "rust"@, 2);
    lemma_ascii_less_at("rust"@, "ts"@, 0);
}

proof fn lemma_file_type_step(i: int)
    requires
        0 <= i < LANGUAGE_COUNT - 1,
    ensures
        text_order(Language::at(i).file_type(), Language::at(i + 1).file_type()) is Less,
{
    lemma_file_type_neighbours_ascend();
}

proof fn lemma_file_types_ascend_between(i: int, j: int)
    requires
        0 <= i < j < LANGUAGE_COUNT,
    ensures
        text_order(Language::at(i).file_type(), Language::at(j).file_type()) is Less,
    decreases j - i,
{
    if j == i + 1 {
        lemma_file_type_step(i);
    } else {
        lemma_file_types_ascend_between(i, j - 1);
        lemma_file_type_step(j - 1);
        lemma_text_order_transitive(
            Language::at(i).file_type(),
            Language::at(j - 1).file_type(),
            Language::at(j).file_type(),
        );
    }
}

/// No two languages share a file type: a file type has one owner among
/// the languages.
pub proof fn lemma_file_types_differ(a: Language, b: Language)
    requires
        a != b,
    ensures
        a.file_type() != b.file_type(),
{
    assert(a.index() != b.index());
    assert(Language::at(a.index()) == a);
    assert(Language::at(b.index()) == b);
    if a.index() < b.index() {
        lemma_file_types_ascend_between(a.index(), b.index());
        lemma_text_order_equal(a.file_type(), b.file_type());
    } else {
        lemma_file_types_ascend_between(b.index(), a.index());
        lemma_text_order_equal(b.file_type(), a.file_type());
    }
}

/// The file type of every language is among fifteen names.
pub proof fn lemma_file_type_is_listed(language: Language, listed: Set<Seq<char>>)
    requires
        listed.contains("c"@),
        listed.contains("cpp"@),
        listed.contains("elixir"@),
        listed.contains("elm"@),
        listed.contains("go"@),
        listed.contains("haskell"@),
        listed.contains("java"@),
        listed.contains("js"@),
        listed.contains("markdown"@),
        listed.contains("nix"@),
        listed.contains("php"@),
        listed.contains("py"@),
        listed.contains("ruby"@),
        listed.contains("rust"@),
        listed.contains("ts"@),
    ensures
        listed.contains(language.file_type()),
{
}

} // verus!
