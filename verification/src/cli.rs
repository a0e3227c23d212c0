//! What is asked for: the output format, the queries and how the
//! queries of one language are merged into one, and the choice between
//! searching and listing the languages.
use crate::engine::{capture_names, compiled, names_of};
use crate::extractor::Extractor;
use crate::extractor_chooser::{ChooserError, ExtractorChooser};
use crate::language::{Language, QueryProblem, UnknownLanguage};
use crate::order::Order;
use crate::text::{lemma_text_order_equal, order_of_text};
use vstd::prelude::*;
use vstd::string::*;

verus! {

/// The format of the output.
#[derive(Clone, Copy, Debug, PartialEq, Eq, Structural)]
pub enum QueryFormat {
    /// One line for each reported capture.
    Lines,
    /// One JSON array of file records.
    Json,
    /// One JSON object for each file record, each on a line of its own.
    JsonLines,
    /// One JSON array of file records, indented.
    PrettyJson,
}

/// A format name that is not known.
#[derive(Clone, Debug, PartialEq, Eq)]
pub struct UnknownFormat {
    /// The name as it was given.
    pub name: String,
}

impl UnknownFormat {
    /// What is said of a format name that is not known.
    pub fn to_string(&self) -> (text: String)
        ensures
            text@ == "unknown format. See --help for valid formats."@,
    {
        String::from_str("unknown format. See --help for valid formats.")
    }
}

/// Tells whether two texts are the same.
pub fn same_text(a: &str, b: &str) -> (r: bool)
    ensures
        r == (a@ == b@),
{
    proof {
        lemma_text_order_equal(a@, b@);
    }
    match order_of_text(a, b) {
        Order::Equal => true,
        _ => false,
    }
}

impl QueryFormat {
    /// The format with a given name, if there is one.
    pub open spec fn named(name: Seq<char>) -> Option<QueryFormat> {
        if name == "lines"@ {
            Some(QueryFormat::Lines)
        } else if name == "json"@ {
            Some(QueryFormat::Json)
        } else if name == "json-lines"@ {
            Some(QueryFormat::JsonLines)
        } else if name == "pretty-json"@ {
            Some(QueryFormat::PrettyJson)
        } else {
            None
        }
    }

    /// Finds a format by its name.
    pub fn from_str(s: &str) -> (r: Result<QueryFormat, UnknownFormat>)
        ensures
            match r {
                Ok(format) => QueryFormat::named(s@) == Some(format),
                Err(unknown) => QueryFormat::named(s@) is None && unknown.name@ == s@,
            },
    {
        if same_text(s, "lines") {
            Ok(QueryFormat::Lines)
        } else if same_text(s, "json") {
            Ok(QueryFormat::Json)
        } else if same_text(s, "json-lines") {
            Ok(QueryFormat::JsonLines)
        } else if same_text(s, "pretty-json") {
            Ok(QueryFormat::PrettyJson)
        } else {
            Err(UnknownFormat { name: String::from_str(s) })
        }
    }
}

/// The capture that is added to a pattern without captures, so that the
/// node it matches is reported as a whole.
pub open spec fn whole_match_capture() -> Seq<char> {
    "@query"@
}

/// A pattern as it goes into the query of its language: with the
/// whole-match capture at its end if it has no capture of its own.
pub open spec fn with_capture(pattern: Seq<char>, capture_count: nat) -> Seq<char> {
    if capture_count == 0 {
        pattern + whole_match_capture()
    } else {
        pattern
    }
}

/// The pattern as it goes into the query of its language, given the
/// number of captures that the pattern has when compiled alone.
pub fn with_whole_match_capture(raw: &str, capture_count: usize) -> (text: String)
    ensures
        text@ == with_capture(raw@, capture_count as nat),
{
    let mut text = String::from_str(raw);
    if capture_count == 0 {
        text.append("@query");
    }
    text
}

/// What a pattern of a language goes into the query with, where the
/// engine accepts the pattern.
pub open spec fn completed(language: Language, pattern: Seq<char>) -> Seq<char> {
    match compiled(language, pattern) {
        Ok(names) => with_capture(pattern, names.len()),
        Err(_) => pattern,
    }
}

/// Checks one pattern by compiling it alone, and completes it. The query
/// that this makes is thrown away: it serves the check and the count of
/// captures only.
pub fn check_pattern(language: Language, raw: &str) -> (r: Result<String, QueryProblem>)
    ensures
        match r {
            Ok(text) => compiled(language, raw@) is Ok && text@ == completed(language, raw@),
            Err(problem) => compiled(language, raw@) == Err::<Seq<Seq<char>>, Seq<char>>(
                problem.message@,
            ),
        },
{
    match language.parse_query(raw) {
        Ok(query) => {
            let names = names_of(&query);
            assert(names.deep_view().len() == names.len());
            Ok(with_whole_match_capture(raw, names.len()))
        },
        Err(problem) => Err(problem),
    }
}

/// A pattern, or several patterns written one after another, for one language.
#[derive(Debug, PartialEq, Eq)]
pub struct LanguageQuery {
    pub language: Language,
    pub text: String,
}

impl View for LanguageQuery {
    type V = (Language, Seq<char>);

    open spec fn view(&self) -> (Language, Seq<char>) {
        (self.language, self.text@)
    }
}

/// The views of a list of queries.
pub open spec fn query_views(queries: Seq<LanguageQuery>) -> Seq<(Language, Seq<char>)> {
    queries.map_values(|q: LanguageQuery| q@)
}

/// The languages of a list of queries, each once, in the order in which
/// they first appear.
pub open spec fn languages_in(queries: Seq<(Language, Seq<char>)>) -> Seq<Language>
    decreases queries.len(),
{
    if queries.len() == 0 {
        Seq::empty()
    } else {
        let before = languages_in(queries.drop_last());
        if before.contains(queries.last().0) {
            before
        } else {
            before.push(queries.last().0)
        }
    }
}

/// The texts of the queries of one language, written one after another in
/// the order of the list. The engine reads patterns that follow each
/// other as alternatives.
pub open spec fn text_for(queries: Seq<(Language, Seq<char>)>, language: Language) -> Seq<char>
    decreases queries.len(),
{
    if queries.len() == 0 {
        Seq::empty()
    } else if queries.last().0 == language {
        text_for(queries.drop_last(), language) + queries.last().1
    } else {
        text_for(queries.drop_last(), language)
    }
}

/// One query for each language of a list of queries.
pub open spec fn combined(queries: Seq<(Language, Seq<char>)>) -> Seq<(Language, Seq<char>)> {
    languages_in(queries).map_values(|language: Language| (language, text_for(queries, language)))
}

/// No language stands twice among the languages of a list of queries.
pub proof fn lemma_languages_once(queries: Seq<(Language, Seq<char>)>)
    ensures
        languages_in(queries).no_duplicates(),
        forall|language: Language|
            !languages_in(queries).contains(language) ==> #[trigger] text_for(queries, language)
                == Seq::<char>::empty(),
    decreases queries.len(),
{
    if queries.len() > 0 {
        lemma_languages_once(queries.drop_last());
        let before = languages_in(queries.drop_last());
        let last = queries.last().0;
        let longer = before.push(last);
        if before.contains(last) {
            assert forall|language: Language|
                !before.contains(language) implies #[trigger] text_for(queries, language)
                == Seq::<char>::empty() by {
                assert(language != last);
                assert(text_for(queries.drop_last(), language) == Seq::<char>::empty());
            }
        } else {
            assert forall|i: int, j: int|
                0 <= i < longer.len() && 0 <= j < longer.len() && i != j implies longer[i]
                != longer[j] by {
                if i < before.len() {
                    assert(before.contains(before[i]));
                }
                if j < before.len() {
                    assert(before.contains(before[j]));
                }
            }
            assert forall|language: Language|
                !longer.contains(language) implies #[trigger] text_for(queries, language)
                == Seq::<char>::empty() by {
                assert(longer[before.len() as int] == last);
                assert(longer.contains(last));
                assert(language != last);
                if before.contains(language) {
                    let i = choose|i: int| 0 <= i < before.len() && before[i] == language;
                    assert(longer[i] == language);
                }
                assert(text_for(queries.drop_last(), language) == Seq::<char>::empty());
            }
        }
    } else {
        assert forall|language: Language|
            !languages_in(queries).contains(language) implies #[trigger] text_for(
            queries,
            language,
        ) == Seq::<char>::empty() by {}
    }
}

/// What one more query does to the combined queries: its text is added at
/// the end of the query of its language, and if its language is new, a
/// query for that language is added at the end.
pub proof fn lemma_combined_push(queries: Seq<(Language, Seq<char>)>, next: (Language, Seq<char>))
    ensures
        ({
            let before = combined(queries);
            let after = combined(queries.push(next));
            let languages = languages_in(queries);
            if languages.contains(next.0) {
                &&& languages_in(queries.push(next)) == languages
                &&& after.len() == before.len()
                &&& forall|k: int|
                    0 <= k < before.len() ==> #[trigger] after[k] == if before[k].0 == next.0 {
                        (next.0, before[k].1 + next.1)
                    } else {
                        before[k]
                    }
            } else {
                &&& languages_in(queries.push(next)) == languages.push(next.0)
                &&& after == before.push(next)
            }
        }),
{
    let longer = queries.push(next);
    assert(longer.drop_last() =~= queries);
    assert(longer.last() == next);
    lemma_languages_once(queries);
    let languages = languages_in(queries);
    let before = combined(queries);
    let after = combined(longer);
    if languages.contains(next.0) {
        assert(languages_in(longer) == languages);
        assert forall|k: int| 0 <= k < before.len() implies #[trigger] after[k] == if before[k].0
            == next.0 {
            (next.0, before[k].1 + next.1)
        } else {
            before[k]
        } by {}
    } else {
        assert(languages_in(longer) == languages.push(next.0));
        assert(text_for(queries, next.0) == Seq::<char>::empty());
        assert(text_for(longer, next.0) =~= next.1);
        assert(after =~= before.push(next)) by {
            assert forall|k: int| 0 <= k < before.len() implies after[k] == before[k] by {
                assert(languages.contains(languages[k]));
            }
        }
    }
}

/// Merges the queries of each language into one, in the order in which
/// they were given. A file is then parsed and searched once, however many
/// queries were given for its language.
pub fn combine(queries: &Vec<LanguageQuery>) -> (merged: Vec<LanguageQuery>)
    ensures
        query_views(merged@) == combined(query_views(queries@)),
{
    let ghost views = query_views(queries@);
    let mut languages: Vec<Language> = Vec::new();
    let mut texts: Vec<String> = Vec::new();
    let mut i: usize = 0;
    proof {
        assert(views.take(0) =~= Seq::empty());
        assert(combined(views.take(0)) =~= Seq::empty());
    }
    while i < queries.len()
        invariant
            i <= queries.len(),
            views == query_views(queries@),
            languages.len() == texts.len(),
            languages@ == languages_in(views.take(i as int)),
            combined(views.take(i as int)).len() == languages.len(),
            forall|k: int|
                0 <= k < languages.len() ==> #[trigger] combined(views.take(i as int))[k] == (
                    languages[k],
                    texts[k]@,
                ),
        decreases queries.len() - i,
    {
        let query = &queries[i];
        let ghost before = views.take(i as int);
        proof {
            assert(views.take(i + 1) =~= before.push(query@));
            lemma_combined_push(before, query@);
        }
        let mut place: usize = 0;
        while place < languages.len() && languages[place] != query.language
            invariant
                place <= languages.len(),
                forall|k: int| 0 <= k < place ==> languages[k] != query.language,
            decreases languages.len() - place,
        {
            place = place + 1;
        }
        if place < languages.len() {
            proof {
                lemma_languages_once(before);
                assert(languages@.contains(query.language)) by {
                    assert(languages@[place as int] == query.language);
                }
            }
            let mut text = String::from_str(texts[place].as_str());
            text.append(query.text.as_str());
            let ghost old_texts = texts@;
            texts.set(place, text);
            proof {
                let after = combined(views.take(i + 1));
                assert forall|k: int| 0 <= k < languages.len() implies #[trigger] after[k] == (
                    languages[k],
                    texts[k]@,
                ) by {
                    assert(combined(before)[k] == (languages[k], old_texts[k]@));
                    if k != place {
                        assert(languages@[k] != languages@[place as int]);
                    }
                }
            }
        } else {
            proof {
                assert(!languages@.contains(query.language));
            }
            languages.push(query.language);
            texts.push(String::from_str(query.text.as_str()));
            proof {
                let after = combined(views.take(i + 1));
                assert forall|k: int| 0 <= k < languages.len() implies #[trigger] after[k] == (
                    languages[k],
                    texts[k]@,
                ) by {
                    if k < languages.len() - 1 {
                        assert(after[k] == combined(before)[k]);
                    }
                }
            }
        }
        i = i + 1;
    }
    proof {
        assert(views.take(i as int) =~= views);
    }
    let mut merged: Vec<LanguageQuery> = Vec::new();
    let mut k: usize = 0;
    let mut texts = crate::pipeline::reversed(texts);
    while k < languages.len()
        invariant
            k <= languages.len(),
            merged.len() == k,
            texts.len() == languages.len() - k,
            combined(views).len() == languages.len(),
            forall|j: int|
                0 <= j < texts.len() ==> (languages[languages.len() - 1 - j], (
                    #[trigger] texts[j])@) == combined(views)[languages.len() - 1 - j],
            forall|j: int| 0 <= j < k ==> (#[trigger] merged[j])@ == combined(views)[j],
        decreases languages.len() - k,
    {
        match texts.pop() {
            Some(text) => {
                merged.push(LanguageQuery { language: languages[k], text });
            },
            None => {},
        }
        k = k + 1;
    }
    assert(query_views(merged@) =~= combined(views));
    merged
}

/// Why a request could not be taken up. Each of these is found before any
/// file is looked at.
#[derive(Debug, PartialEq, Eq)]
pub enum RequestError {
    /// A language was asked for that is not in the catalogue.
    Language(UnknownLanguage),
    /// The engine rejected a pattern.
    Query(QueryProblem),
    /// The engine rejected the merged query of a language.
    CombinedQuery(QueryProblem),
    /// An output format was asked for that is not known.
    Format(UnknownFormat),
}

/// What a `RequestError` holds, as mathematics: the name that was not
/// known, or the engine's complaint.
pub enum RequestErrorView {
    Language(Seq<char>),
    Query(Seq<char>),
    CombinedQuery(Seq<char>),
    Format(Seq<char>),
}

impl View for RequestError {
    type V = RequestErrorView;

    open spec fn view(&self) -> RequestErrorView {
        match *self {
            RequestError::Language(unknown) => RequestErrorView::Language(unknown.name@),
            RequestError::Query(problem) => RequestErrorView::Query(problem.message@),
            RequestError::CombinedQuery(problem) => RequestErrorView::CombinedQuery(
                problem.message@,
            ),
            RequestError::Format(unknown) => RequestErrorView::Format(unknown.name@),
        }
    }
}

impl RequestError {
    /// What is said of each failure, before the cause is given.
    pub open spec fn message(self) -> Seq<char> {
        match self {
            RequestError::Language(_) => "could not parse language"@,
            RequestError::Query(_) => "could not parse query"@,
            RequestError::CombinedQuery(_) => "could not parse combined query"@,
            RequestError::Format(_) => "could not set format"@,
        }
    }

    /// What is said of this failure, before the cause is given.
    pub fn to_string(&self) -> (text: String)
        ensures
            text@ == self.message(),
    {
        match self {
            RequestError::Language(_) => String::from_str("could not parse language"),
            RequestError::Query(_) => String::from_str("could not parse query"),
            RequestError::CombinedQuery(_) => String::from_str("could not parse combined query"),
            RequestError::Format(_) => String::from_str("could not set format"),
        }
    }

    /// What the catalogue, the engine or the list of formats has to say.
    pub open spec fn cause_of(self) -> Seq<char> {
        match self {
            RequestError::Language(unknown) => UnknownLanguage::message(unknown.name@),
            RequestError::Query(problem) => problem.message@,
            RequestError::CombinedQuery(problem) => problem.message@,
            RequestError::Format(_) => "unknown format. See --help for valid formats."@,
        }
    }

    /// The cause: what the catalogue, the engine or the list of formats
    /// has to say.
    pub fn cause(&self) -> (text: String)
        ensures
            text@ == self.cause_of(),
    {
        match self {
            RequestError::Language(unknown) => unknown.to_string(),
            RequestError::Query(problem) => problem.to_string(),
            RequestError::CombinedQuery(problem) => problem.to_string(),
            RequestError::Format(unknown) => unknown.to_string(),
        }
    }
}

/// The views of a list of pairs of a language name and a pattern.
pub open spec fn pair_views(pairs: Seq<(String, String)>) -> Seq<(Seq<char>, Seq<char>)> {
    pairs.map_values(|pair: (String, String)| (pair.0@, pair.1@))
}

/// The queries that a list of pairs of a language name and a pattern
/// stands for, each pattern completed, or what is wrong with the first
/// pair that is not in order: its language is not known, or the engine
/// rejects its pattern.
pub open spec fn checked(pairs: Seq<(Seq<char>, Seq<char>)>) -> Result<
    Seq<(Language, Seq<char>)>,
    RequestErrorView,
>
    decreases pairs.len(),
{
    if pairs.len() == 0 {
        Ok(Seq::empty())
    } else {
        match checked(pairs.drop_last()) {
            Err(error) => Err(error),
            Ok(queries) => match Language::named(pairs.last().0) {
                None => Err(RequestErrorView::Language(pairs.last().0)),
                Some(language) => match compiled(language, pairs.last().1) {
                    Err(complaint) => Err(RequestErrorView::Query(complaint)),
                    Ok(_) => Ok(queries.push((language, completed(language, pairs.last().1)))),
                },
            },
        }
    }
}

/// The languages and capture names of the extractors that a list of
/// queries gives, or the engine's complaint about the first query that it
/// rejects.
pub open spec fn compiled_all(queries: Seq<(Language, Seq<char>)>) -> Result<
    Seq<(Language, Seq<Seq<char>>)>,
    RequestErrorView,
>
    decreases queries.len(),
{
    if queries.len() == 0 {
        Ok(Seq::empty())
    } else {
        match compiled_all(queries.drop_last()) {
            Err(error) => Err(error),
            Ok(extractors) => match compiled(queries.last().0, queries.last().1) {
                Err(complaint) => Err(RequestErrorView::CombinedQuery(complaint)),
                Ok(names) => Ok(extractors.push((queries.last().0, names))),
            },
        }
    }
}

/// What a list of pairs of a language name and a pattern leads to: one
/// extractor for each language that is named, in the order in which the
/// languages are first named, each with the capture names of the merged
/// query of its language; or the first thing that is wrong.
pub open spec fn planned(pairs: Seq<(Seq<char>, Seq<char>)>) -> Result<
    Seq<(Language, Seq<Seq<char>>)>,
    RequestErrorView,
> {
    match checked(pairs) {
        Err(error) => Err(error),
        Ok(queries) => compiled_all(combined(queries)),
    }
}

/// Whether each extractor of a list holds the capture names of its own query.
pub open spec fn own_names(extractors: Seq<Extractor>) -> bool {
    forall|k: int|
        0 <= k < extractors.len() ==> capture_names((#[trigger] extractors[k]).query_of())
            == extractors[k].names()
}

/// The language and the capture names of each extractor of a list.
pub open spec fn described(extractors: Seq<Extractor>) -> Seq<(Language, Seq<Seq<char>>)> {
    extractors.map_values(|e: Extractor| (e.language_of(), e.names()))
}

/// Whether to search or to list the languages.
#[derive(Debug)]
pub enum Invocation {
    DoQuery(QueryOpts),
    ShowLanguages,
}

/// What a search needs to know.
#[derive(Debug)]
pub struct QueryOpts {
    pub extractors: Vec<Extractor>,
    pub paths: Vec<String>,
    pub git_ignore: bool,
    pub format: QueryFormat,
    pub sort: bool,
}

/// The arguments of an invocation as the argument parser hands them over.
#[derive(Clone, Debug, PartialEq, Eq)]
pub struct Arguments {
    /// Whether the list of languages was asked for.
    pub languages: bool,
    /// The queries: pairs of a language name and a pattern.
    pub queries: Vec<(String, String)>,
    /// The places to search.
    pub paths: Vec<String>,
    /// Whether git's ignore and exclude files are to be left unread.
    pub no_gitignore: bool,
    /// The name of the output format.
    pub format: String,
    /// Whether the output is to be sorted.
    pub sort: bool,
}

/// A search without a place to search.
#[derive(Debug, PartialEq, Eq)]
pub struct NoPaths;

impl NoPaths {
    /// What is said of a search without a place to search.
    pub fn to_string(&self) -> (text: String)
        ensures
            text@ == "I need at least one file or directory to walk!"@,
    {
        String::from_str("I need at least one file or directory to walk!")
    }
}

impl QueryOpts {
    /// The place where the walk starts; the other places are added to it.
    /// A search needs one place at least.
    pub fn first_path(&self) -> (r: Result<&String, NoPaths>)
        ensures
            match r {
                Ok(path) => self.paths.len() > 0 && *path == self.paths[0],
                Err(_) => self.paths.len() == 0,
            },
    {
        if self.paths.len() > 0 {
            Ok(&self.paths[0])
        } else {
            Err(NoPaths)
        }
    }

    /// The chooser that routes files to the extractors of this search.
    pub fn extractor_chooser(&self) -> (r: Result<ExtractorChooser, ChooserError>)
        ensures
            match r {
                Ok(chooser) => {
                    &&& crate::extractor_chooser::distinct(
                        crate::extractor_chooser::file_types(self.extractors@),
                    )
                    &&& chooser.extractors_of() == self.extractors@
                },
                Err(error) => error == ChooserError::DuplicateQuery
                    && !crate::extractor_chooser::distinct(
                    crate::extractor_chooser::file_types(self.extractors@),
                ),
            },
    {
        ExtractorChooser::from_extractors(self.extractors.as_slice())
    }
}

impl Invocation {
    /// The extractors for a list of pairs of a language name and a
    /// pattern: one for each language that is named, in the order in which
    /// the languages are first named.
    ///
    /// Each pattern is compiled alone first, which checks it and tells
    /// whether it has captures; a pattern without any gets the whole-match
    /// capture. The patterns of one language are then written one after
    /// another and compiled as one query, and that query alone is used for
    /// searching.
    pub fn extractors(pairs: &Vec<(String, String)>) -> (r: Result<Vec<Extractor>, RequestError>)
        ensures
            r matches Ok(extractors) ==> own_names(extractors@),
            match r {
                Ok(extractors) => planned(pair_views(pairs@)) == Ok::<
                    Seq<(Language, Seq<Seq<char>>)>,
                    RequestErrorView,
                >(described(extractors@)),
                Err(error) => planned(pair_views(pairs@)) == Err::<
                    Seq<(Language, Seq<Seq<char>>)>,
                    RequestErrorView,
                >(error@),
            },
    {
        let ghost views = pair_views(pairs@);
        let mut queries: Vec<LanguageQuery> = Vec::new();
        let mut i: usize = 0;
        proof {
            assert(views.take(0) =~= Seq::empty());
            assert(query_views(queries@) =~= Seq::empty());
        }
        while i < pairs.len()
            invariant
                i <= pairs.len(),
                views == pair_views(pairs@),
                checked(views.take(i as int)) == Ok::<Seq<(Language, Seq<char>)>, RequestErrorView>(
                    query_views(queries@),
                ),
            decreases pairs.len() - i,
        {
            let pair = &pairs[i];
            proof {
                let now = views.take(i + 1);
                assert(now.drop_last() =~= views.take(i as int));
                assert(now.last() == (pair.0@, pair.1@));
            }
            let language = match Language::from_str(pair.0.as_str()) {
                Ok(language) => language,
                Err(unknown) => {
                    proof {
                        lemma_checked_failure_stays(views, i + 1);
                    }
                    return Err(RequestError::Language(unknown));
                },
            };
            let text = match check_pattern(language, pair.1.as_str()) {
                Ok(text) => text,
                Err(problem) => {
                    proof {
                        lemma_checked_failure_stays(views, i + 1);
                    }
                    return Err(RequestError::Query(problem));
                },
            };
            let ghost before = query_views(queries@);
            queries.push(LanguageQuery { language, text });
            proof {
                assert(query_views(queries@) =~= before.push((language, text@)));
            }
            i = i + 1;
        }
        proof {
            assert(views.take(i as int) =~= views);
        }
        let merged = combine(&queries);
        let ghost plan = query_views(merged@);
        let mut out: Vec<Extractor> = Vec::new();
        let mut k: usize = 0;
        proof {
            assert(plan.take(0) =~= Seq::empty());
            assert(described(out@) =~= Seq::empty());
        }
        while k < merged.len()
            invariant
                k <= merged.len(),
                plan == query_views(merged@),
                plan == combined(query_views(queries@)),
                checked(pair_views(pairs@)) == Ok::<Seq<(Language, Seq<char>)>, RequestErrorView>(
                    query_views(queries@),
                ),
                compiled_all(plan.take(k as int)) == Ok::<
                    Seq<(Language, Seq<Seq<char>>)>,
                    RequestErrorView,
                >(described(out@)),
                own_names(out@),
            decreases merged.len() - k,
        {
            let query = &merged[k];
            proof {
                let now = plan.take(k + 1);
                assert(now.drop_last() =~= plan.take(k as int));
                assert(now.last() == query@);
            }
            let compiled_query = match query.language.parse_query(query.text.as_str()) {
                Ok(compiled_query) => compiled_query,
                Err(problem) => {
                    proof {
                        lemma_compiled_all_failure_stays(plan, k + 1);
                    }
                    return Err(RequestError::CombinedQuery(problem));
                },
            };
            let ghost before = described(out@);
            let ghost earlier = out@;
            let extractor = Extractor::new(query.language, compiled_query);
            out.push(extractor);
            proof {
                assert(described(out@) =~= before.push((extractor.language_of(), extractor.names())));
                assert forall|j: int| 0 <= j < out.len() implies capture_names(
                    (#[trigger] out@[j]).query_of(),
                ) == out@[j].names() by {
                    if j < earlier.len() {
                        assert(out@[j] == earlier[j]);
                    }
                }
            }
            k = k + 1;
        }
        proof {
            assert(plan.take(k as int) =~= plan);
        }
        Ok(out)
    }

    /// The paths to search, as they were given. There is at least one
    /// where the argument parser supplies the current directory for none.
    pub fn paths(args: &Arguments) -> (paths: Vec<String>)
        ensures
            paths.deep_view() == args.paths.deep_view(),
    {
        let mut paths: Vec<String> = Vec::new();
        let mut i: usize = 0;
        while i < args.paths.len()
            invariant
                i <= args.paths.len(),
                paths.len() == i,
                forall|k: int| 0 <= k < i ==> (#[trigger] paths[k])@ == args.paths[k]@,
            decreases args.paths.len() - i,
        {
            paths.push(String::from_str(args.paths[i].as_str()));
            i = i + 1;
        }
        assert(paths.deep_view() =~= args.paths.deep_view());
        paths
    }

    /// What an invocation asks for. The list of languages wins over a
    /// search; for a search the queries are compiled first and the format
    /// is looked up then, and git's ignore files are read unless that was
    /// declined. The extractors of a search claim different file types,
    /// so a chooser for them is never refused.
    pub fn from_args(args: Arguments) -> (r: Result<Invocation, RequestError>)
        ensures
            match r {
                Ok(Invocation::ShowLanguages) => args.languages,
                Ok(Invocation::DoQuery(opts)) => {
                    &&& !args.languages
                    &&& own_names(opts.extractors@)
                    &&& crate::extractor_chooser::distinct(
                        crate::extractor_chooser::file_types(opts.extractors@),
                    )
                    &&& planned(pair_views(args.queries@)) == Ok::<
                        Seq<(Language, Seq<Seq<char>>)>,
                        RequestErrorView,
                    >(described(opts.extractors@))
                    &&& opts.paths.deep_view() == args.paths.deep_view()
                    &&& opts.git_ignore == !args.no_gitignore
                    &&& QueryFormat::named(args.format@) == Some(opts.format)
                    &&& opts.sort == args.sort
                },
                Err(error) => {
                    &&& !args.languages
                    &&& match planned(pair_views(args.queries@)) {
                        Err(problem) => error@ == problem,
                        Ok(_) => QueryFormat::named(args.format@) is None && error@
                            == RequestErrorView::Format(args.format@),
                    }
                },
            },
    {
        if args.languages {
            return Ok(Invocation::ShowLanguages);
        }
        let extractors = match Invocation::extractors(&args.queries) {
            Ok(extractors) => extractors,
            Err(error) => {
                return Err(error);
            },
        };
        proof {
            lemma_request_never_collides(pair_views(args.queries@), extractors@);
        }
        let paths = Invocation::paths(&args);
        let format = match QueryFormat::from_str(args.format.as_str()) {
            Ok(format) => format,
            Err(unknown) => {
                return Err(RequestError::Format(unknown));
            },
        };
        Ok(
            Invocation::DoQuery(
                QueryOpts {
                    extractors,
                    paths,
                    git_ignore: !args.no_gitignore,
                    format,
                    sort: args.sort,
                },
            ),
        )
    }
}

/// Once a pair is found wrong, what is wrong stays so when more pairs follow.
proof fn lemma_checked_failure_stays(pairs: Seq<(Seq<char>, Seq<char>)>, n: int)
    requires
        0 <= n <= pairs.len(),
        checked(pairs.take(n)) is Err,
    ensures
        checked(pairs) == checked(pairs.take(n)),
    decreases pairs.len() - n,
{
    if n < pairs.len() {
        assert(pairs.take(n + 1).drop_last() =~= pairs.take(n));
        lemma_checked_failure_stays(pairs, n + 1);
    } else {
        assert(pairs.take(n) =~= pairs);
    }
}

/// Once a query is rejected, the complaint stays when more queries follow.
proof fn lemma_compiled_all_failure_stays(queries: Seq<(Language, Seq<char>)>, n: int)
    requires
        0 <= n <= queries.len(),
        compiled_all(queries.take(n)) is Err,
    ensures
        compiled_all(queries) == compiled_all(queries.take(n)),
    decreases queries.len() - n,
{
    if n < queries.len() {
        assert(queries.take(n + 1).drop_last() =~= queries.take(n));
        lemma_compiled_all_failure_stays(queries, n + 1);
    } else {
        assert(queries.take(n) =~= queries);
    }
}

/// The extractors that a list of queries gives are for the languages of
/// the queries, in their order.
proof fn lemma_compiled_all_keeps_languages(queries: Seq<(Language, Seq<char>)>)
    requires
        compiled_all(queries) is Ok,
    ensures
        compiled_all(queries)->Ok_0.len() == queries.len(),
        forall|k: int|
            0 <= k < queries.len() ==> (#[trigger] compiled_all(queries)->Ok_0[k]).0
                == queries[k].0,
    decreases queries.len(),
{
    if queries.len() > 0 {
        lemma_compiled_all_keeps_languages(queries.drop_last());
    }
}

/// The extractors of a request never collide: they are for different
/// languages, and so they claim different file types. A chooser for them
/// is never refused for a file type that is claimed twice.
pub proof fn lemma_request_never_collides(
    pairs: Seq<(Seq<char>, Seq<char>)>,
    extractors: Seq<Extractor>,
)
    requires
        planned(pairs) == Ok::<Seq<(Language, Seq<Seq<char>>)>, RequestErrorView>(
            described(extractors),
        ),
    ensures
        crate::extractor_chooser::distinct(crate::extractor_chooser::file_types(extractors)),
{
    let queries = checked(pairs)->Ok_0;
    let merged = combined(queries);
    lemma_compiled_all_keeps_languages(merged);
    lemma_languages_once(queries);
    let languages = languages_in(queries);
    let names = crate::extractor_chooser::file_types(extractors);
    assert forall|i: int, j: int| 0 <= i < j < names.len() implies #[trigger] names[i]
        != #[trigger] names[j] by {
        assert(described(extractors)[i].0 == merged[i].0);
        assert(described(extractors)[j].0 == merged[j].0);
        assert(merged[i].0 == languages[i]);
        assert(merged[j].0 == languages[j]);
        assert(languages[i] != languages[j]);
        crate::language::lemma_file_types_differ(languages[i], languages[j]);
    }
}

} // verus!
