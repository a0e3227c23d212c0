//! Extraction: what a query finds in one file, and the records in which
//! the findings are reported.
use crate::engine::{
    assigned, capture_names, captures_of, caught, language_error_text, names_of, parse,
    parsed_text, set_language, speaks,
};
use crate::language::Language;
use crate::text::{is_silent, starts_with_underscore};
use tree_sitter::Language as Grammar;
use vstd::prelude::*;
use vstd::string::*;

verus! {

/// A place in a text: a row and a column, both counted from zero.
#[derive(Clone, Copy, Debug, PartialEq, Eq, PartialOrd, Ord, Structural)]
pub struct Point {
    pub row: usize,
    pub column: usize,
}

/// One captured node as the engine hands it out.
#[derive(Clone, Debug, PartialEq, Eq)]
pub struct Capture<'s> {
    /// The place of the capture's name among the query's capture names.
    pub index: u32,
    /// The kind of the node, a tag that the grammar defines.
    pub kind: &'static str,
    /// The text of the node; nothing where its bytes are not UTF-8.
    pub text: Option<&'s str>,
    /// Where the node starts.
    pub start: Point,
    /// Where the node ends.
    pub end: Point,
}

/// What a `Capture` holds, as mathematics.
pub struct CaptureView {
    pub index: int,
    pub kind: Seq<char>,
    pub text: Option<Seq<char>>,
    pub start: Point,
    pub end: Point,
}

impl<'s> View for Capture<'s> {
    type V = CaptureView;

    open spec fn view(&self) -> CaptureView {
        CaptureView {
            index: self.index as int,
            kind: self.kind@,
            text: match self.text {
                Some(text) => Some(text@),
                None => None,
            },
            start: self.start,
            end: self.end,
        }
    }
}

/// One reported capture: its name, the kind and text of the node it
/// caught, and where the node starts and ends, counted from zero.
#[derive(Debug, PartialEq, Eq, PartialOrd, Ord)]
pub struct ExtractedMatch<'query> {
    pub kind: &'static str,
    pub name: &'query str,
    pub text: String,
    pub start: Point,
    pub end: Point,
}

/// What an `ExtractedMatch` holds, as mathematics.
pub struct MatchView {
    pub kind: Seq<char>,
    pub name: Seq<char>,
    pub text: Seq<char>,
    pub start: Point,
    pub end: Point,
}

impl<'query> View for ExtractedMatch<'query> {
    type V = MatchView;

    open spec fn view(&self) -> MatchView {
        MatchView {
            kind: self.kind@,
            name: self.name@,
            text: self.text@,
            start: self.start,
            end: self.end,
        }
    }
}

/// The reported captures of one file. A file without any is not reported
/// at all, so `matches` is never empty in a record that extraction made.
#[derive(Debug, PartialEq, Eq)]
pub struct ExtractedFile<'query> {
    /// The path of the file, where the text came from one.
    pub file: Option<String>,
    /// The name of the language that the file was read as.
    pub file_type: String,
    pub matches: Vec<ExtractedMatch<'query>>,
}

/// What an `ExtractedFile` holds, as mathematics.
pub struct FileView {
    pub file: Option<Seq<char>>,
    pub file_type: Seq<char>,
    pub matches: Seq<MatchView>,
}

/// The views of a sequence of matches.
pub open spec fn match_views(matches: Seq<ExtractedMatch>) -> Seq<MatchView> {
    matches.map_values(|m: ExtractedMatch| m@)
}

impl<'query> View for ExtractedFile<'query> {
    type V = FileView;

    open spec fn view(&self) -> FileView {
        FileView {
            file: match self.file {
                Some(path) => Some(path@),
                None => None,
            },
            file_type: self.file_type@,
            matches: match_views(self.matches@),
        }
    }
}

/// Why a text could not be searched.
#[derive(Debug, PartialEq, Eq)]
pub enum ExtractError {
    /// The parser did not accept the grammar; the engine's complaint is kept.
    Language(String),
    /// The engine gave no tree. A grammar parses any text, so this points
    /// at a fault in the set-up and not in the text.
    Parse,
    /// The bytes of a capture that was to be reported are not UTF-8.
    Text,
}

/// What the engine found, match by match, as mathematics.
pub open spec fn capture_views(found: Seq<Vec<Capture>>) -> Seq<Seq<CaptureView>> {
    found.map_values(|m: Vec<Capture>| m@.map_values(|c: Capture| c@))
}

/// The captures of all matches, in the order in which the engine found them.
pub open spec fn all_captures(found: Seq<Vec<Capture>>) -> Seq<CaptureView> {
    found.map_values(|m: Vec<Capture>| m@.map_values(|c: Capture| c@)).flatten()
}

/// Whether a capture is reported: its name does not start with `_`.
pub open spec fn is_visible(names: Seq<Seq<char>>, capture: CaptureView) -> bool {
    0 <= capture.index < names.len() && !is_silent(names[capture.index])
}

/// The record that reports a capture with a text.
pub open spec fn reported(names: Seq<Seq<char>>, capture: CaptureView) -> MatchView {
    MatchView {
        kind: capture.kind,
        name: names[capture.index],
        text: capture.text.unwrap(),
        start: capture.start,
        end: capture.end,
    }
}

/// The captures that are reported, in their order.
pub open spec fn visible_captures(names: Seq<Seq<char>>, captures: Seq<CaptureView>) -> Seq<
    CaptureView,
> {
    captures.filter(|c: CaptureView| is_visible(names, c))
}

/// The records that report a sequence of captures: one for each visible
/// capture, in the order of the captures.
pub open spec fn report(names: Seq<Seq<char>>, captures: Seq<CaptureView>) -> Seq<MatchView> {
    visible_captures(names, captures).map_values(|c: CaptureView| reported(names, c))
}

/// Whether some capture that is to be reported has no text.
pub open spec fn lacks_text(names: Seq<Seq<char>>, captures: Seq<CaptureView>) -> bool {
    exists|k: int|
        0 <= k < captures.len() && is_visible(names, #[trigger] captures[k]) && captures[k].text
            is None
}

/// Adding a capture at the end adds its record at the end, if it is visible.
pub proof fn lemma_report_push(names: Seq<Seq<char>>, captures: Seq<CaptureView>, c: CaptureView)
    ensures
        report(names, captures.push(c)) == if is_visible(names, c) {
            report(names, captures).push(reported(names, c))
        } else {
            report(names, captures)
        },
        lacks_text(names, captures.push(c)) == (lacks_text(names, captures) || (is_visible(
            names,
            c,
        ) && c.text is None)),
{
    let visible = |c: CaptureView| is_visible(names, c);
    let record = |c: CaptureView| reported(names, c);
    captures.lemma_filter_push(c, visible);
    if is_visible(names, c) {
        assert(captures.filter(visible).push(c).map_values(record) =~= captures.filter(
            visible,
        ).map_values(record).push(record(c)));
    }
    let longer = captures.push(c);
    if lacks_text(names, captures) {
        let k = choose|k: int|
            0 <= k < captures.len() && is_visible(names, #[trigger] captures[k])
                && captures[k].text is None;
        assert(longer[k] == captures[k]);
    }
    if is_visible(names, c) && c.text is None {
        assert(longer[captures.len() as int] == c);
    }
    if lacks_text(names, longer) {
        let k = choose|k: int|
            0 <= k < longer.len() && is_visible(names, #[trigger] longer[k]) && longer[k].text
                is None;
        if k < captures.len() {
            assert(captures[k] == longer[k]);
        }
    }
}

/// The records of two runs of captures, one after the other, are the
/// records of the first followed by those of the second: what one part of
/// the captures contributes does not depend on the others.
pub proof fn lemma_report_concat(
    names: Seq<Seq<char>>,
    first: Seq<CaptureView>,
    second: Seq<CaptureView>,
)
    ensures
        report(names, first + second) == report(names, first) + report(names, second),
{
    let visible = |c: CaptureView| is_visible(names, c);
    let record = |c: CaptureView| reported(names, c);
    Seq::filter_distributes_over_add(first, second, visible);
    assert((first.filter(visible) + second.filter(visible)).map_values(record) =~= first.filter(
        visible,
    ).map_values(record) + second.filter(visible).map_values(record));
}

/// Where every capture is visible, there is exactly one record for each
/// capture, in the order of the captures: a query whose only capture is
/// the whole-match capture reports each of its matches once, under that
/// capture's name and with the text of the node that the match caught.
pub proof fn lemma_all_visible(names: Seq<Seq<char>>, captures: Seq<CaptureView>)
    requires
        forall|k: int| 0 <= k < captures.len() ==> is_visible(names, #[trigger] captures[k]),
    ensures
        report(names, captures) == captures.map_values(|c: CaptureView| reported(names, c)),
    decreases captures.len(),
{
    let record = |c: CaptureView| reported(names, c);
    if captures.len() == 0 {
        assert(report(names, captures) =~= captures.map_values(record));
    } else {
        let shorter = captures.drop_last();
        assert forall|k: int| 0 <= k < shorter.len() implies is_visible(
            names,
            #[trigger] shorter[k],
        ) by {
            assert(shorter[k] == captures[k]);
        }
        lemma_all_visible(names, shorter);
        assert(captures =~= shorter.push(captures.last()));
        lemma_report_push(names, shorter, captures.last());
        assert(shorter.map_values(record).push(record(captures.last())) =~= captures.map_values(
            record,
        ));
    }
}

/// No record carries a name that starts with `_`, and every record
/// carries one of the capture names.
pub proof fn lemma_report_names(names: Seq<Seq<char>>, captures: Seq<CaptureView>, k: int)
    requires
        0 <= k < report(names, captures).len(),
    ensures
        !is_silent(report(names, captures)[k].name),
        names.contains(report(names, captures)[k].name),
{
    let visible = |c: CaptureView| is_visible(names, c);
    let shown = captures.filter(visible);
    captures.lemma_filter_pred(visible, k);
    assert(visible(shown[k]));
    assert(names[shown[k].index] == report(names, captures)[k].name);
}

/// The matcher of one language: the compiled query, its capture names, and
/// which of them are silent.
#[derive(Debug)]
pub struct Extractor {
    language: Language,
    ts_language: Grammar,
    query: tree_sitter::Query,
    captures: Vec<String>,
    ignores: Vec<bool>,
}

impl Extractor {
    /// The capture names are those of the query, and `ignores` marks the
    /// places of the names that start with `_`.
    #[verifier::type_invariant]
    spec fn well_formed(self) -> bool {
        &&& speaks(self.ts_language) == self.language
        &&& self.captures.deep_view() == capture_names(self.query)
        &&& self.ignores@.len() == self.captures@.len()
        &&& forall|i: int|
            0 <= i < self.captures@.len() ==> #[trigger] self.ignores@[i] == is_silent(
                self.captures@[i]@,
            )
    }

    /// The language that this extractor searches.
    pub closed spec fn language_of(self) -> Language {
        self.language
    }

    /// The capture names of the query, in the order of their indices.
    pub closed spec fn names(self) -> Seq<Seq<char>> {
        self.captures.deep_view()
    }

    /// The compiled query.
    pub closed spec fn query_of(self) -> tree_sitter::Query {
        self.query
    }

    /// Whether every capture name is silent, so that nothing is ever reported.
    pub open spec fn all_silent(self) -> bool {
        forall|i: int| 0 <= i < self.names().len() ==> is_silent(#[trigger] self.names()[i])
    }

    /// An extractor for a language and a query compiled for it. The places
    /// of the silent captures are worked out here, once.
    pub fn new(language: Language, query: tree_sitter::Query) -> (extractor: Extractor)
        ensures
            extractor.language_of() == language,
            extractor.query_of() == query,
            extractor.names() == capture_names(query),
    {
        let captures = names_of(&query);
        let mut ignores: Vec<bool> = Vec::new();
        let mut i: usize = 0;
        while i < captures.len()
            invariant
                i <= captures.len(),
                ignores@.len() == i,
                forall|k: int|
                    0 <= k < i ==> #[trigger] ignores@[k] == is_silent(captures@[k]@),
            decreases captures.len() - i,
        {
            ignores.push(starts_with_underscore(captures[i].as_str()));
            i = i + 1;
        }
        Extractor { ts_language: language.language(), language, query, captures, ignores }
    }

    /// The language that this extractor searches.
    pub fn language(&self) -> (language: &Language)
        ensures
            *language == self.language_of(),
    {
        &self.language
    }

    /// The capture names of the query, in the order of their indices.
    pub fn capture_names(&self) -> (names: &Vec<String>)
        ensures
            names.deep_view() == self.names(),
    {
        &self.captures
    }

    /// Tells whether the query has only silent captures. Such an extractor
    /// is valid and never reports anything: a caller should warn of it.
    pub fn has_only_ignored_captures(&self) -> (r: bool)
        ensures
            r == self.all_silent(),
    {
        proof {
            use_type_invariant(self);
        }
        let mut i: usize = 0;
        while i < self.ignores.len()
            invariant
                i <= self.ignores@.len(),
                self.ignores@.len() == self.captures@.len(),
                forall|k: int|
                    0 <= k < self.captures@.len() ==> #[trigger] self.ignores@[k] == is_silent(
                        self.captures@[k]@,
                    ),
                forall|k: int| 0 <= k < i ==> is_silent(#[trigger] self.names()[k]),
            decreases self.ignores@.len() - i,
        {
            if !self.ignores[i] {
                assert(!is_silent(self.names()[i as int]));
                return false;
            }
            assert(is_silent(self.names()[i as int]));
            i = i + 1;
        }
        true
    }

    /// The records that report what the engine found: one for each capture
    /// whose name does not start with `_`, in the engine's order, match by
    /// match. It fails, and only then, when such a capture has no text.
    pub fn visible_matches<'q, 's>(&'q self, found: &Vec<Vec<Capture<'s>>>) -> (r: Result<
        Vec<ExtractedMatch<'q>>,
        ExtractError,
    >)
        requires
            forall|i: int, j: int|
                0 <= i < found.len() && 0 <= j < found[i].len() ==> (#[trigger] found[i][j]).index
                    < self.names().len(),
        ensures
            match r {
                Ok(matches) => !lacks_text(self.names(), all_captures(found@)) && match_views(
                    matches@,
                ) == report(self.names(), all_captures(found@)),
                Err(error) => lacks_text(self.names(), all_captures(found@)) && error
                    == ExtractError::Text,
            },
    {
        proof {
            use_type_invariant(self);
        }
        let ghost names = self.names();
        let ghost views = found@.map_values(|m: Vec<Capture>| m@.map_values(|c: Capture| c@));
        let mut matches: Vec<ExtractedMatch<'q>> = Vec::new();
        let mut i: usize = 0;
        proof {
            assert(views.take(0) =~= Seq::<Seq<CaptureView>>::empty());
            assert(views.take(0).flatten() =~= Seq::<CaptureView>::empty());
            assert(report(names, Seq::<CaptureView>::empty()) =~= Seq::<MatchView>::empty());
            assert(match_views(matches@) =~= Seq::<MatchView>::empty());
        }
        while i < found.len()
            invariant
                i <= found.len(),
                names == self.names(),
                names == self.captures.deep_view(),
                self.ignores@.len() == self.captures@.len(),
                forall|k: int|
                    0 <= k < self.captures@.len() ==> #[trigger] self.ignores@[k] == is_silent(
                        self.captures@[k]@,
                    ),
                views == found@.map_values(|m: Vec<Capture>| m@.map_values(|c: Capture| c@)),
                forall|a: int, b: int|
                    0 <= a < found.len() && 0 <= b < found[a].len() ==> (#[trigger] found[a][b]).index
                        < names.len(),
                match_views(matches@) == report(names, views.take(i as int).flatten()),
                !lacks_text(names, views.take(i as int).flatten()),
            decreases found.len() - i,
        {
            let captures = &found[i];
            let ghost before = views.take(i as int).flatten();
            let ghost here = views[i as int];
            let mut j: usize = 0;
            proof {
                assert(here.take(0) =~= Seq::<CaptureView>::empty());
                assert(before + here.take(0) =~= before);
            }
            while j < captures.len()
                invariant
                    j <= captures.len(),
                    i < found.len(),
                    captures == &found[i as int],
                    names == self.names(),
                    names == self.captures.deep_view(),
                    self.ignores@.len() == self.captures@.len(),
                    forall|k: int|
                        0 <= k < self.captures@.len() ==> #[trigger] self.ignores@[k]
                            == is_silent(self.captures@[k]@),
                    views == found@.map_values(
                        |m: Vec<Capture>| m@.map_values(|c: Capture| c@),
                    ),
                    forall|a: int, b: int|
                        0 <= a < found.len() && 0 <= b < found[a].len() ==> (
                        #[trigger] found[a][b]).index < names.len(),
                    before == views.take(i as int).flatten(),
                    here == views[i as int],
                    here.len() == captures.len(),
                    match_views(matches@) == report(names, before + here.take(j as int)),
                    !lacks_text(names, before + here.take(j as int)),
                decreases captures.len() - j,
            {
                let capture = &captures[j];
                let index: usize = capture.index as usize;
                proof {
                    assert(found[i as int][j as int].index < names.len());
                    assert(here[j as int] == capture@);
                    assert((before + here.take(j as int)).push(capture@) =~= before + here.take(
                        j + 1,
                    ));
                    lemma_report_push(names, before + here.take(j as int), capture@);
                    assert(names[index as int] == self.captures@[index as int]@);
                    assert(is_visible(names, capture@) == !self.ignores@[index as int]);
                }
                if !self.ignores[index] {
                    let text = match capture.text {
                        Some(text) => String::from_str(text),
                        None => {
                            proof {
                                lemma_lacking_prefix(names, views, i as int, j as int);
                            }
                            return Err(ExtractError::Text);
                        },
                    };
                    let ghost earlier = match_views(matches@);
                    let record = ExtractedMatch {
                        kind: capture.kind,
                        name: self.captures[index].as_str(),
                        text,
                        start: capture.start,
                        end: capture.end,
                    };
                    matches.push(record);
                    proof {
                        assert(record@ == reported(names, capture@));
                        assert(match_views(matches@) =~= earlier.push(record@));
                    }
                }
                j = j + 1;
            }
            proof {
                assert(here.take(j as int) =~= here);
                assert(views.take(i + 1) =~= views.take(i as int).push(here));
                views.take(i as int).lemma_flatten_push(here);
            }
            i = i + 1;
        }
        proof {
            assert(views.take(i as int) =~= views);
        }
        Ok(matches)
    }
}

/// What becomes of the captures that the engine found in one text: a
/// failure where a capture that is to be reported has no text, no record
/// where nothing is to be reported, and else the record of the file, with
/// one match for each visible capture in the order of the captures.
pub open spec fn extraction(
    names: Seq<Seq<char>>,
    file_type: Seq<char>,
    path: Option<Seq<char>>,
    captures: Seq<CaptureView>,
) -> Result<Option<FileView>, ExtractError> {
    if lacks_text(names, captures) {
        Err(ExtractError::Text)
    } else if report(names, captures).len() == 0 {
        Ok(None)
    } else {
        Ok(Some(FileView { file: path, file_type, matches: report(names, captures) }))
    }
}

/// The outcome of searching one text, as mathematics.
pub open spec fn outcome_view(outcome: Result<Option<ExtractedFile>, ExtractError>) -> Result<
    Option<FileView>,
    ExtractError,
> {
    match outcome {
        Ok(Some(file)) => Ok(Some(file@)),
        Ok(None) => Ok(None),
        Err(error) => Err(error),
    }
}

/// The view of a path that may be missing.
pub open spec fn path_view(path: Option<&str>) -> Option<Seq<char>> {
    match path {
        Some(path) => Some(path@),
        None => None,
    }
}

/// Whether every capture names one of the capture names.
pub open spec fn indices_within(names: Seq<Seq<char>>, captures: Seq<CaptureView>) -> bool {
    forall|k: int| 0 <= k < captures.len() ==> 0 <= (#[trigger] captures[k]).index < names.len()
}

/// Whether an outcome is the extraction of what a query catches in a tree
/// of a text.
pub open spec fn extracts(
    names: Seq<Seq<char>>,
    file_type: Seq<char>,
    path: Option<Seq<char>>,
    source: Seq<u8>,
    query: tree_sitter::Query,
    tree: tree_sitter::Tree,
    outcome: Result<Option<FileView>, ExtractError>,
) -> bool {
    &&& parsed_text(tree) == source
    &&& indices_within(names, caught(query, tree).flatten())
    &&& outcome == extraction(names, file_type, path, caught(query, tree).flatten())
}

impl Extractor {
    /// What becomes of what the engine found in one text: the record of
    /// the file, no record where nothing is to be reported, or a failure
    /// where a capture that is to be reported has no text.
    pub fn extracted<'q>(&'q self, path: Option<&str>, found: &Vec<Vec<Capture>>) -> (r: Result<
        Option<ExtractedFile<'q>>,
        ExtractError,
    >)
        requires
            forall|i: int, j: int|
                0 <= i < found.len() && 0 <= j < found[i].len() ==> (#[trigger] found[i][j]).index
                    < self.names().len(),
        ensures
            outcome_view(r) == extraction(
                self.names(),
                self.language_of().canonical_name(),
                path_view(path),
                all_captures(found@),
            ),
    {
        let matches = match self.visible_matches(found) {
            Ok(matches) => matches,
            Err(error) => {
                return Err(error);
            },
        };
        if matches.len() == 0 {
            assert(match_views(matches@).len() == 0);
            Ok(None)
        } else {
            assert(match_views(matches@).len() == matches.len());
            let file = ExtractedFile {
                file: match path {
                    Some(path) => Some(String::from_str(path)),
                    None => None,
                },
                file_type: self.language.to_string(),
                matches,
            };
            assert(file@.file == path_view(path));
            Ok(Some(file))
        }
    }

    /// Searches one text. The parser is bound to this extractor's grammar
    /// first, so one parser can serve files of different languages in turn:
    /// whatever language it had before, it has this extractor's language
    /// afterwards, unless the engine refused the grammar.
    ///
    /// Whether the parser takes the grammar and whether it gives a tree is
    /// the engine's affair. Where it gives one, the outcome is the
    /// extraction of what the query catches in that tree of the text: a
    /// record that comes back carries the given path and this language's
    /// name, holds at least one match, and every match in it carries a
    /// capture name of the query that does not start with `_`.
    pub fn extract_from_text<'q>(
        &'q self,
        path: Option<&str>,
        source: &[u8],
        parser: &mut tree_sitter::Parser,
    ) -> (r: Result<Option<ExtractedFile<'q>>, ExtractError>)
        ensures
            match r {
                Err(ExtractError::Language(_)) => true,
                Err(ExtractError::Parse) => true,
                _ => exists|tree: tree_sitter::Tree| #[trigger]
                    extracts(
                        self.names(),
                        self.language_of().canonical_name(),
                        path_view(path),
                        source@,
                        self.query_of(),
                        tree,
                        outcome_view(r),
                    ),
            },
            match r {
                Ok(Some(file)) => {
                    &&& file@.file == path_view(path)
                    &&& file@.file_type == self.language_of().canonical_name()
                    &&& file@.matches.len() > 0
                    &&& forall|k: int|
                        0 <= k < file@.matches.len() ==> {
                            &&& !is_silent(#[trigger] file@.matches[k].name)
                            &&& self.names().contains(file@.matches[k].name)
                        }
                },
                Ok(None) => true,
                Err(_) => true,
            },
            self.all_silent() ==> !(r matches Ok(Some(_))),
            !(r matches Err(ExtractError::Language(_))) ==> assigned(*final(parser)) == Some(
                self.language_of(),
            ),
    {
        proof {
            use_type_invariant(self);
        }
        match set_language(parser, &self.ts_language) {
            Ok(()) => {},
            Err(error) => {
                return Err(ExtractError::Language(language_error_text(&error)));
            },
        }
        let tree = match parse(parser, source) {
            Some(tree) => tree,
            None => {
                return Err(ExtractError::Parse);
            },
        };
        proof {
            use_type_invariant(self);
        }
        let found = captures_of(&self.query, &tree, source);
        let r = self.extracted(path, &found);
        proof {
            let captures = all_captures(found@);
            lemma_flat_indices(found@, self.names());
            assert(capture_views(found@).flatten() == captures);
            assert(extracts(
                self.names(),
                self.language_of().canonical_name(),
                path_view(path),
                source@,
                self.query_of(),
                tree,
                outcome_view(r),
            ));
            if r matches Ok(Some(_)) {
                let file = r->Ok_0->Some_0;
                assert(file@.matches == report(self.names(), captures));
                assert forall|k: int| 0 <= k < file@.matches.len() implies {
                    &&& !is_silent(#[trigger] file@.matches[k].name)
                    &&& self.names().contains(file@.matches[k].name)
                } by {
                    lemma_report_names(self.names(), captures, k);
                }
                if self.all_silent() {
                    lemma_report_names(self.names(), captures, 0);
                    let name = file@.matches[0].name;
                    let at = choose|at: int| 0 <= at < self.names().len() && self.names()[at] == name;
                    assert(is_silent(self.names()[at]));
                }
            }
        }
        r
    }
}

/// The captures of all matches name capture names where the captures of
/// each match do.
proof fn lemma_flat_indices(found: Seq<Vec<Capture>>, names: Seq<Seq<char>>)
    requires
        forall|i: int, j: int|
            0 <= i < found.len() && 0 <= j < found[i].len() ==> (#[trigger] found[i][j]).index
                < names.len(),
    ensures
        indices_within(names, all_captures(found)),
    decreases found.len(),
{
    let views = found.map_values(|m: Vec<Capture>| m@.map_values(|c: Capture| c@));
    if found.len() == 0 {
        assert(views.flatten() =~= Seq::<CaptureView>::empty());
    } else {
        let shorter = found.drop_last();
        let short_views = shorter.map_values(|m: Vec<Capture>| m@.map_values(|c: Capture| c@));
        assert forall|i: int, j: int|
            0 <= i < shorter.len() && 0 <= j < shorter[i].len() implies (
        #[trigger] shorter[i][j]).index < names.len() by {
            assert(shorter[i] == found[i]);
            assert(found[i][j].index < names.len());
        }
        lemma_flat_indices(shorter, names);
        let last = views.last();
        assert(views =~= short_views.push(last));
        short_views.lemma_flatten_push(last);
        let all = views.flatten();
        assert forall|k: int| 0 <= k < all.len() implies 0 <= (#[trigger] all[k]).index
            < names.len() by {
            if k < short_views.flatten().len() {
                assert(all[k] == short_views.flatten()[k]);
            } else {
                let j = k - short_views.flatten().len();
                assert(all[k] == last[j]);
                assert(last[j] == found[found.len() - 1][j]@);
                assert(found[found.len() - 1][j].index < names.len());
            }
        }
    }
}

impl ExtractError {
    /// What is said of each failure.
    pub open spec fn message(self) -> Seq<char> {
        match self {
            ExtractError::Language(_) => "could not set language"@,
            ExtractError::Parse =>
                "could not parse to a tree. This is an internal error and should be reported."@,
            ExtractError::Text => "could not extract text from capture"@,
        }
    }

    /// What is said of this failure.
    pub fn to_string(&self) -> (text: String)
        ensures
            text@ == self.message(),
    {
        match self {
            ExtractError::Language(_) => String::from_str("could not set language"),
            ExtractError::Parse => String::from_str(
                "could not parse to a tree. This is an internal error and should be reported.",
            ),
            ExtractError::Text => String::from_str("could not extract text from capture"),
        }
    }
}

/// A capture without text among the first captures of a match is one
/// among all captures.
proof fn lemma_lacking_prefix(
    names: Seq<Seq<char>>,
    views: Seq<Seq<CaptureView>>,
    i: int,
    j: int,
)
    requires
        0 <= i < views.len(),
        0 <= j < views[i].len(),
        is_visible(names, views[i][j]),
        views[i][j].text is None,
    ensures
        lacks_text(names, views.flatten()),
{
    let before = views.take(i);
    let after = views.skip(i + 1);
    assert(views =~= before.push(views[i]) + after);
    vstd::seq_lib::lemma_flatten_concat(before.push(views[i]), after);
    before.lemma_flatten_push(views[i]);
    let all = views.flatten();
    let k = before.flatten().len() + j;
    assert(all =~= before.flatten() + views[i] + after.flatten());
    assert(all[k] == views[i][j]);
}

} // verus!
