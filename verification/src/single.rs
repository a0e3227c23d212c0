//! Searching with a single query, match by match: every match of the query
//! is reported with the captures it made, even where it made none that
//! are shown.
use crate::cli::same_text;
use crate::engine::{
    capture_names, captures_of, caught, compiled, names_of, parse, parsed_text, pattern_count,
    root_node, root_of, sexp_of, written,
};
use crate::extractor::{capture_views, is_visible, Capture, CaptureView};
use crate::language::{GrammarProblem, Language, QueryProblem};
use crate::text::{decimal, decimal_text, is_silent, starts_with_underscore};
use vstd::prelude::*;
use vstd::string::*;

verus! {

/// A language name that this kind of search does not take.
#[derive(Debug, PartialEq, Eq)]
pub enum LanguageChoiceError {
    UnknownLanguage,
}

impl LanguageChoiceError {
    /// What is said of a language name that is not taken.
    pub fn to_string(&self) -> (text: String)
        ensures
            text@ == "Unknown language. Try one of \"elm\" or \"ruby\""@,
    {
        String::from_str("Unknown language. Try one of \"elm\" or \"ruby\"")
    }
}

/// The language of a name, among the three that this kind of search takes.
pub open spec fn language_chosen(name: Seq<char>) -> Option<Language> {
    if name == "elm"@ {
        Some(Language::Elm)
    } else if name == "ruby"@ {
        Some(Language::Ruby)
    } else if name == "javascript"@ {
        Some(Language::JavaScript)
    } else {
        None
    }
}

/// Finds the language of a name, among the three that this kind of search takes.
pub fn language_from_str(s: &str) -> (r: Result<Language, LanguageChoiceError>)
    ensures
        match r {
            Ok(language) => language_chosen(s@) == Some(language),
            Err(_) => language_chosen(s@) is None,
        },
{
    if same_text(s, "elm") {
        Ok(Language::Elm)
    } else if same_text(s, "ruby") {
        Ok(Language::Ruby)
    } else if same_text(s, "javascript") {
        Ok(Language::JavaScript)
    } else {
        Err(LanguageChoiceError::UnknownLanguage)
    }
}

/// The format of the output of this kind of search.
#[derive(Clone, Copy, Debug, PartialEq, Eq, Structural)]
pub enum Format {
    Lines,
    JSON,
}

/// A format name that is not known.
#[derive(Debug, PartialEq, Eq)]
pub enum FormatError {
    InvalidFormatString,
}

impl FormatError {
    /// What is said of a format name that is not known.
    pub fn to_string(&self) -> (text: String)
        ensures
            text@ == "valid values are \"lines\" and \"json\"."@,
    {
        String::from_str("valid values are \"lines\" and \"json\".")
    }
}

impl Format {
    /// The format with a given name, if there is one.
    pub open spec fn named(name: Seq<char>) -> Option<Format> {
        if name == "lines"@ {
            Some(Format::Lines)
        } else if name == "json"@ {
            Some(Format::JSON)
        } else {
            None
        }
    }

    /// Finds a format by its name.
    pub fn from_str(s: &str) -> (r: Result<Format, FormatError>)
        ensures
            match r {
                Ok(format) => Format::named(s@) == Some(format),
                Err(_) => Format::named(s@) is None,
            },
    {
        if same_text(s, "lines") {
            Ok(Format::Lines)
        } else if same_text(s, "json") {
            Ok(Format::JSON)
        } else {
            Err(FormatError::InvalidFormatString)
        }
    }
}

/// Whether a query is to be compiled again with the whole-match capture:
/// it is a single pattern and has no capture.
pub fn wants_whole_match_capture(pattern_count: usize, capture_count: usize) -> (r: bool)
    ensures
        r == (pattern_count == 1 && capture_count == 0),
{
    pattern_count == 1 && capture_count == 0
}

/// Compiles the pattern of a search. A single pattern without captures
/// would match without reporting anything, so it is compiled a second
/// time with the whole-match capture at its end. A pattern that the
/// engine rejects gives the engine's complaint, and a pattern with a
/// capture gives its own query; whatever the engine makes of the pattern,
/// the query that comes back is the one the engine made of the pattern as
/// it was given or with `@query` at its end.
pub fn get_query(language: Language, pattern: &str) -> (r: Result<
    tree_sitter::Query,
    QueryProblem,
>)
    ensures
        compiled(language, pattern@) is Err ==> r is Err && r->Err_0.message@ == compiled(
            language,
            pattern@,
        )->Err_0,
        compiled(language, pattern@) is Ok && compiled(language, pattern@)->Ok_0.len() > 0 ==> r
            is Ok && capture_names(r->Ok_0) == compiled(language, pattern@)->Ok_0,
        r matches Ok(query) ==> {
            ||| crate::engine::compiled(language, pattern@) == Ok::<Seq<Seq<char>>, Seq<char>>(
                capture_names(query),
            )
            ||| crate::engine::compiled(language, pattern@ + "@query"@) == Ok::<
                Seq<Seq<char>>,
                Seq<char>,
            >(capture_names(query))
        },
        r matches Err(problem) ==> {
            ||| crate::engine::compiled(language, pattern@) == Err::<Seq<Seq<char>>, Seq<char>>(
                problem.message@,
            )
            ||| crate::engine::compiled(language, pattern@ + "@query"@) == Err::<
                Seq<Seq<char>>,
                Seq<char>,
            >(problem.message@)
        },
{
    let query = match language.parse_query(pattern) {
        Ok(query) => query,
        Err(problem) => {
            return Err(problem);
        },
    };
    let names = names_of(&query);
    assert(names.deep_view().len() == names.len());
    if wants_whole_match_capture(pattern_count(&query), names.len()) {
        let mut longer = String::from_str(pattern);
        longer.append("@query");
        language.parse_query(longer.as_str())
    } else {
        Ok(query)
    }
}

/// One capture of a match as it is shown: its name, its text, and the row
/// and column where it starts, counted from one.
#[derive(Debug, PartialEq, Eq)]
pub struct NamedCapture {
    pub name: String,
    pub source: String,
    pub row: u128,
    pub column: u128,
}

/// What a `NamedCapture` holds, as mathematics.
pub struct NamedCaptureView {
    pub name: Seq<char>,
    pub source: Seq<char>,
    pub row: nat,
    pub column: nat,
}

impl View for NamedCapture {
    type V = NamedCaptureView;

    open spec fn view(&self) -> NamedCaptureView {
        NamedCaptureView {
            name: self.name@,
            source: self.source@,
            row: self.row as nat,
            column: self.column as nat,
        }
    }
}

/// One match of the query in a file, with the captures of it that are shown.
#[derive(Debug, PartialEq, Eq)]
pub struct Match {
    pub path: String,
    pub captures: Vec<NamedCapture>,
}

/// What a `Match` holds, as mathematics.
pub struct MatchedView {
    pub path: Seq<char>,
    pub captures: Seq<NamedCaptureView>,
}

/// The views of some captures.
pub open spec fn shown_views(captures: Seq<NamedCapture>) -> Seq<NamedCaptureView> {
    captures.map_values(|c: NamedCapture| c@)
}

impl View for Match {
    type V = MatchedView;

    open spec fn view(&self) -> MatchedView {
        MatchedView { path: self.path@, captures: shown_views(self.captures@) }
    }
}

/// How a capture with a text is shown.
pub open spec fn shown(names: Seq<Seq<char>>, capture: CaptureView) -> NamedCaptureView {
    NamedCaptureView {
        name: names[capture.index],
        source: capture.text.unwrap(),
        row: (capture.start.row + 1) as nat,
        column: (capture.start.column + 1) as nat,
    }
}

/// The captures of a match that are shown, in their order: those whose
/// name does not start with `_`.
pub open spec fn shown_captures(names: Seq<Seq<char>>, captures: Seq<CaptureView>) -> Seq<
    NamedCaptureView,
> {
    captures.filter(|c: CaptureView| is_visible(names, c)).map_values(
        |c: CaptureView| shown(names, c),
    )
}

/// Whether a capture of a match that is to be shown has no text.
pub open spec fn misses_text(names: Seq<Seq<char>>, captures: Seq<CaptureView>) -> bool {
    exists|k: int|
        0 <= k < captures.len() && is_visible(names, #[trigger] captures[k]) && captures[k].text
            is None
}

/// The views of the captures of a match as the engine hands them out.
pub open spec fn engine_views(captures: Seq<Capture>) -> Seq<CaptureView> {
    captures.map_values(|c: Capture| c@)
}

/// What one more capture adds to what is shown of a match.
proof fn lemma_shown_push(names: Seq<Seq<char>>, captures: Seq<CaptureView>, c: CaptureView)
    ensures
        shown_captures(names, captures.push(c)) == if is_visible(names, c) {
            shown_captures(names, captures).push(shown(names, c))
        } else {
            shown_captures(names, captures)
        },
        misses_text(names, captures.push(c)) == (misses_text(names, captures) || (is_visible(
            names,
            c,
        ) && c.text is None)),
{
    let visible = |c: CaptureView| is_visible(names, c);
    let show = |c: CaptureView| shown(names, c);
    captures.lemma_filter_push(c, visible);
    if is_visible(names, c) {
        assert(captures.filter(visible).push(c).map_values(show) =~= captures.filter(
            visible,
        ).map_values(show).push(show(c)));
    }
    let longer = captures.push(c);
    if misses_text(names, captures) {
        let k = choose|k: int|
            0 <= k < captures.len() && is_visible(names, #[trigger] captures[k])
                && captures[k].text is None;
        assert(longer[k] == captures[k]);
    }
    if is_visible(names, c) && c.text is None {
        assert(longer[captures.len() as int] == c);
    }
    if misses_text(names, longer) {
        let k = choose|k: int|
            0 <= k < longer.len() && is_visible(names, #[trigger] longer[k]) && longer[k].text
                is None;
        if k < captures.len() {
            assert(captures[k] == longer[k]);
        }
    }
}

/// Once a capture of a match misses its text, the match misses it.
proof fn lemma_misses_stays(names: Seq<Seq<char>>, captures: Seq<CaptureView>, n: int)
    requires
        0 <= n <= captures.len(),
        misses_text(names, captures.take(n)),
    ensures
        misses_text(names, captures),
{
    let k = choose|k: int|
        0 <= k < captures.take(n).len() && is_visible(names, #[trigger] captures.take(n)[k])
            && captures.take(n)[k].text is None;
    assert(captures[k] == captures.take(n)[k]);
}

/// A text could not be shown: the bytes of a capture are not UTF-8.
#[derive(Debug, PartialEq, Eq)]
pub struct NotText;

/// What is shown of one match: its captures whose names do not start with
/// `_`, in their order. It fails, and only then, where such a capture has
/// no text.
pub fn shown_of(names: &Vec<String>, captures: &Vec<Capture>) -> (r: Result<
    Vec<NamedCapture>,
    NotText,
>)
    requires
        forall|j: int|
            0 <= j < captures.len() ==> (#[trigger] captures[j]).index < names.len(),
    ensures
        match r {
            Ok(shown) => !misses_text(names.deep_view(), engine_views(captures@)) && shown_views(
                shown@,
            ) == shown_captures(names.deep_view(), engine_views(captures@)),
            Err(_) => misses_text(names.deep_view(), engine_views(captures@)),
        },
{
    let ghost texts = names.deep_view();
    let ghost views = engine_views(captures@);
    let mut out: Vec<NamedCapture> = Vec::new();
    let mut j: usize = 0;
    proof {
        assert(views.take(0) =~= Seq::<CaptureView>::empty());
        assert(shown_captures(texts, views.take(0)) =~= Seq::<NamedCaptureView>::empty());
        assert(shown_views(out@) =~= Seq::<NamedCaptureView>::empty());
    }
    while j < captures.len()
        invariant
            j <= captures.len(),
            texts == names.deep_view(),
            views == engine_views(captures@),
            forall|k: int|
                0 <= k < captures.len() ==> (#[trigger] captures[k]).index < names.len(),
            shown_views(out@) == shown_captures(texts, views.take(j as int)),
            !misses_text(texts, views.take(j as int)),
        decreases captures.len() - j,
    {
        let capture = &captures[j];
        let index: usize = capture.index as usize;
        let name = names[index].as_str();
        proof {
            assert(captures[j as int].index < names.len());
            assert(views[j as int] == capture@);
            assert(views.take(j + 1) =~= views.take(j as int).push(capture@));
            lemma_shown_push(texts, views.take(j as int), capture@);
            assert(texts[index as int] == name@);
        }
        if !starts_with_underscore(name) {
            let source = match capture.text {
                Some(text) => String::from_str(text),
                None => {
                    proof {
                        lemma_misses_stays(texts, views, j + 1);
                    }
                    return Err(NotText);
                },
            };
            let ghost earlier = shown_views(out@);
            let named = NamedCapture {
                name: String::from_str(name),
                source,
                row: capture.start.shown_row(),
                column: capture.start.shown_column(),
            };
            out.push(named);
            proof {
                assert(named@ == shown(texts, capture@));
                assert(shown_views(out@) =~= earlier.push(named@));
            }
        }
        j = j + 1;
    }
    proof {
        assert(views.take(j as int) =~= views);
    }
    Ok(out)
}

/// Whether a match is reported as it should be: under the given path,
/// with what is shown of its captures, of which none misses its text.
pub open spec fn reported_as(
    path: Seq<char>,
    names: Seq<Seq<char>>,
    captures: Seq<CaptureView>,
    reported: MatchedView,
) -> bool {
    &&& !misses_text(names, captures)
    &&& reported == MatchedView { path, captures: shown_captures(names, captures) }
}

/// The matches of a file as they are reported: one for each match that
/// the engine found, in the engine's order, each with what is shown of
/// it. It fails, and only then, where a capture that is to be shown has
/// no text.
pub fn visit(path: &str, names: &Vec<String>, found: &Vec<Vec<Capture>>) -> (r: Result<
    Vec<Match>,
    NotText,
>)
    requires
        forall|i: int, j: int|
            0 <= i < found.len() && 0 <= j < found[i].len() ==> (#[trigger] found[i][j]).index
                < names.len(),
    ensures
        match r {
            Ok(matches) => {
                &&& matches.len() == found.len()
                &&& forall|i: int|
                    0 <= i < found.len() ==> reported_as(
                        path@,
                        names.deep_view(),
                        engine_views(found[i]@),
                        #[trigger] matches[i]@,
                    )
            },
            Err(_) => exists|i: int|
                0 <= i < found.len() && misses_text(
                    names.deep_view(),
                    engine_views(#[trigger] found[i]@),
                ),
        },
{
    let mut matches: Vec<Match> = Vec::new();
    let mut i: usize = 0;
    while i < found.len()
        invariant
            i <= found.len(),
            matches.len() == i,
            forall|a: int, b: int|
                0 <= a < found.len() && 0 <= b < found[a].len() ==> (#[trigger] found[a][b]).index
                    < names.len(),
            forall|k: int|
                0 <= k < i ==> reported_as(
                    path@,
                    names.deep_view(),
                    engine_views(found[k]@),
                    #[trigger] matches[k]@,
                ),
        decreases found.len() - i,
    {
        assert forall|j: int| 0 <= j < found[i as int].len() implies (
        #[trigger] found[i as int][j]).index < names.len() by {}
        let captures = match shown_of(names, &found[i]) {
            Ok(captures) => captures,
            Err(error) => {
                return Err(error);
            },
        };
        let ghost before = matches@;
        let found_here = Match { path: String::from_str(path), captures };
        matches.push(found_here);
        proof {
            assert forall|k: int| 0 <= k < i + 1 implies reported_as(
                path@,
                names.deep_view(),
                engine_views(found[k]@),
                #[trigger] matches[k]@,
            ) by {
                if k < i {
                    assert(matches[k] == before[k]);
                    assert(reported_as(
                        path@,
                        names.deep_view(),
                        engine_views(found[k]@),
                        before[k]@,
                    ));
                } else {
                    assert(matches[k] == found_here);
                }
            }
        }
        i = i + 1;
    }
    Ok(matches)
}

/// Whether some matches are the reports of what was found, one for one
/// and in order.
pub open spec fn reports(
    path: Seq<char>,
    names: Seq<Seq<char>>,
    found: Seq<Seq<CaptureView>>,
    matches: Seq<Match>,
) -> bool {
    &&& found.len() == matches.len()
    &&& forall|i: int|
        0 <= i < found.len() ==> reported_as(path, names, #[trigger] found[i], matches[i]@)
}

/// Whether a reported match stands under a path and shows no capture
/// whose name starts with `_`.
pub open spec fn shows_no_silent(path: Seq<char>, reported: MatchedView) -> bool {
    &&& reported.path == path
    &&& forall|j: int|
        0 <= j < reported.captures.len() ==> !is_silent(#[trigger] reported.captures[j].name)
}

/// Whether some matches are the reports of what a query catches in a
/// tree of a text.
pub open spec fn finds(
    path: Seq<char>,
    source: Seq<u8>,
    query: tree_sitter::Query,
    tree: tree_sitter::Tree,
    matches: Seq<Match>,
) -> bool {
    &&& parsed_text(tree) == source
    &&& reports(path, capture_names(query), caught(query, tree), matches)
}

/// What the engine found, match by match, as mathematics.
pub open spec fn found_views(found: Seq<Vec<Capture>>) -> Seq<Seq<CaptureView>> {
    found.map_values(|m: Vec<Capture>| engine_views(m@))
}

/// Searches one text with a query. The parser is expected to be set up
/// for the language of the query.
///
/// Whether the parser gives a tree is the engine's affair. Where it
/// gives one, the matches that are reported are what the query catches in
/// that tree of the text, one for one and in the engine's order, each
/// under the given path and with what is shown of its captures under the
/// capture names of the query; none of the captures that are shown has a
/// name that starts with `_`.
pub fn search(
    query: &tree_sitter::Query,
    path: &str,
    source: &str,
    parser: &mut tree_sitter::Parser,
) -> (r: Result<Vec<Match>, SearchError>)
    ensures
        r is Ok ==> exists|tree: tree_sitter::Tree| #[trigger]
            finds(path@, source.spec_bytes(), *query, tree, r->Ok_0@),
        r is Ok ==> forall|i: int|
            0 <= i < r->Ok_0.len() ==> shows_no_silent(path@, #[trigger] r->Ok_0[i]@),
{
    let bytes = source.as_bytes();
    let tree = match parse(parser, bytes) {
        Some(tree) => tree,
        None => {
            return Err(SearchError::Parse);
        },
    };
    let names = names_of(query);
    let found = captures_of(query, &tree, bytes);
    let matches = match visit(path, &names, &found) {
        Ok(matches) => matches,
        Err(_) => {
            return Err(SearchError::Text);
        },
    };
    proof {
        let views = found_views(found@);
        assert forall|i: int| 0 <= i < views.len() implies reported_as(
            path@,
            capture_names(*query),
            #[trigger] views[i],
            matches[i]@,
        ) by {
            assert(reported_as(path@, names.deep_view(), engine_views(found[i]@), matches[i]@));
        }
        assert(reports(path@, capture_names(*query), views, matches@));
        assert forall|i: int| 0 <= i < matches.len() implies shows_no_silent(
            path@,
            #[trigger] matches[i]@,
        ) by {
            assert(reported_as(path@, names.deep_view(), engine_views(found[i]@), matches[i]@));
            lemma_shown_are_not_silent(names.deep_view(), engine_views(found[i]@));
        }
    }
    let r: Result<Vec<Match>, SearchError> = Ok(matches);
    proof {
        assert(found_views(found@) =~= capture_views(found@)) by {
            assert forall|i: int| 0 <= i < found.len() implies found_views(found@)[i]
                =~= capture_views(found@)[i] by {}
        }
        assert(reports(path@, capture_names(*query), caught(*query, tree), r->Ok_0@));
        assert(finds(path@, source.spec_bytes(), *query, tree, r->Ok_0@));
    }
    r
}

/// What is shown of a match has no name that starts with `_`.
proof fn lemma_shown_are_not_silent(names: Seq<Seq<char>>, captures: Seq<CaptureView>)
    ensures
        forall|j: int|
            0 <= j < shown_captures(names, captures).len() ==> !is_silent(
                #[trigger] shown_captures(names, captures)[j].name,
            ),
{
    let visible = |c: CaptureView| is_visible(names, c);
    assert forall|j: int| 0 <= j < shown_captures(names, captures).len() implies !is_silent(
        #[trigger] shown_captures(names, captures)[j].name,
    ) by {
        captures.lemma_filter_pred(visible, j);
        assert(visible(captures.filter(visible)[j]));
    }
}

/// Why a text could not be searched.
#[derive(Debug, PartialEq, Eq)]
pub enum SearchError {
    /// The engine gave no tree.
    Parse,
    /// The bytes of a capture that was to be shown are not UTF-8.
    Text,
}

/// The line of one capture of a match.
pub open spec fn capture_line(path: Seq<char>, capture: NamedCaptureView) -> Seq<char> {
    path + ":"@ + decimal(capture.row) + ":"@ + decimal(capture.column) + ":"@ + capture.name
        + ":"@ + capture.source + "\n"@
}

/// The lines of some captures of one match, in their order.
pub open spec fn capture_lines(path: Seq<char>, captures: Seq<NamedCaptureView>) -> Seq<char>
    decreases captures.len(),
{
    if captures.len() == 0 {
        Seq::empty()
    } else {
        capture_lines(path, captures.drop_last()) + capture_line(path, captures.last())
    }
}

/// The lines of some matches, in their order.
pub open spec fn match_lines(matches: Seq<Match>) -> Seq<char>
    decreases matches.len(),
{
    if matches.len() == 0 {
        Seq::empty()
    } else {
        match_lines(matches.drop_last()) + capture_lines(
            matches.last()@.path,
            matches.last()@.captures,
        )
    }
}

/// The output in lines: one line for each capture that is shown,
/// `path:row:column:name:text`, match after match.
pub fn format_lines(matches: &Vec<Match>) -> (text: String)
    ensures
        text@ == match_lines(matches@),
{
    let mut out = String::new();
    let mut i: usize = 0;
    assert(matches@.take(0) =~= Seq::<Match>::empty());
    while i < matches.len()
        invariant
            i <= matches.len(),
            out@ == match_lines(matches@.take(i as int)),
        decreases matches.len() - i,
    {
        let found = &matches[i];
        let ghost before = out@;
        let ghost views = found@.captures;
        let mut j: usize = 0;
        assert(views.take(0) =~= Seq::<NamedCaptureView>::empty());
        assert(out@ =~= before + capture_lines(found@.path, views.take(0)));
        while j < found.captures.len()
            invariant
                j <= found.captures.len(),
                views == found@.captures,
                views.len() == found.captures.len(),
                out@ == before + capture_lines(found@.path, views.take(j as int)),
            decreases found.captures.len() - j,
        {
            let capture = &found.captures[j];
            let ghost so_far = out@;
            out.append(found.path.as_str());
            out.append(":");
            out.append(decimal_text(capture.row).as_str());
            out.append(":");
            out.append(decimal_text(capture.column).as_str());
            out.append(":");
            out.append(capture.name.as_str());
            out.append(":");
            out.append(capture.source.as_str());
            out.append("\n");
            proof {
                let now = views.take(j + 1);
                assert(now.drop_last() =~= views.take(j as int));
                assert(now.last() == capture@);
                assert(out@ =~= so_far + capture_line(found@.path, capture@));
                assert(out@ =~= before + capture_lines(found@.path, now));
            }
            j = j + 1;
        }
        proof {
            assert(views.take(j as int) =~= views);
            let now = matches@.take(i + 1);
            assert(now.drop_last() =~= matches@.take(i as int));
            assert(now.last() == *found);
        }
        i = i + 1;
    }
    assert(matches@.take(i as int) =~= matches@);
    out
}

/// The syntax tree of a text as an S-expression, as the engine writes it.
/// Whether the engine has a parser for the language and gives a tree is
/// the engine's affair; a text that comes back is what the engine writes
/// for the root of a tree of `source`.
pub fn dump(language: Language, source: &[u8]) -> (r: Result<String, DumpError>)
    ensures
        r matches Ok(text) ==> exists|tree: tree_sitter::Tree|
            parsed_text(tree) == source@ && text@ == #[trigger] written(root_node(tree)),
{
    let mut parser = match language.parser() {
        Ok(parser) => parser,
        Err(problem) => {
            return Err(DumpError::Parser(problem));
        },
    };
    match parse(&mut parser, source) {
        Some(tree) => {
            let root = root_of(&tree);
            let text = sexp_of(&root);
            assert(parsed_text(tree) == source@ && text@ == written(root_node(tree)));
            Ok(text)
        },
        None => Err(DumpError::Parse),
    }
}

/// Why a syntax tree could not be dumped.
#[derive(Debug, PartialEq, Eq)]
pub enum DumpError {
    /// No parser could be had for the language.
    Parser(GrammarProblem),
    /// The engine gave no tree.
    Parse,
}

} // verus!
