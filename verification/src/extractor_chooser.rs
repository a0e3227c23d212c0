//! Routing: which extractor, if any, a file goes to.
use crate::extractor::Extractor;
use crate::file_types::{
    add_defaults, build, buildable, chosen, decided, error_text, matched, new_builder, select,
    selected, FileTypeMatch, FileTypeMatchView,
};
use crate::language::{lemma_file_type_is_listed, lemma_file_type_is_not_all, Language};
use crate::order::Order;
use crate::text::{lemma_text_order_equal, order_of_text};
use vstd::prelude::*;
use vstd::string::*;

verus! {

/// Why a chooser could not be made.
#[derive(Debug, PartialEq, Eq)]
pub enum ChooserError {
    /// Two extractors claim the same file type, so that a file of that
    /// type would have no single owner.
    DuplicateQuery,
    /// The file type matcher could not be built; the matcher's complaint is kept.
    Matcher(String),
}

impl ChooserError {
    /// What is said of each failure.
    pub open spec fn message(self) -> Seq<char> {
        match self {
            ChooserError::DuplicateQuery =>
                "got a duplicate query. This should not have happened. Please report it!"@,
            ChooserError::Matcher(_) =>
                "could not build a filetype matcher using provided extractors"@,
        }
    }

    /// What is said of this failure.
    pub fn to_string(&self) -> (text: String)
        ensures
            text@ == self.message(),
    {
        match self {
            ChooserError::DuplicateQuery => String::from_str(
                "got a duplicate query. This should not have happened. Please report it!",
            ),
            ChooserError::Matcher(_) => String::from_str(
                "could not build a filetype matcher using provided extractors",
            ),
        }
    }
}

/// The file types that a list of extractors claims, in the order of the list.
pub open spec fn file_types(extractors: Seq<Extractor>) -> Seq<Seq<char>> {
    Seq::new(extractors.len(), |i: int| extractors[i].language_of().file_type())
}

/// Whether no file type is claimed twice.
pub open spec fn distinct(names: Seq<Seq<char>>) -> bool {
    forall|i: int, j: int| 0 <= i < j < names.len() ==> #[trigger] names[i] != #[trigger] names[j]
}

/// The place of the extractor that claims a file type, if one does.
pub open spec fn place_of(names: Seq<Seq<char>>, name: Seq<char>) -> Option<int> {
    if exists|i: int| 0 <= i < names.len() && names[i] == name {
        Some(choose|i: int| 0 <= i < names.len() && names[i] == name)
    } else {
        None
    }
}

/// Where no file type is claimed twice, the place of a claimed file type
/// is the one place where it stands: no file type has two owners.
pub proof fn lemma_place_is_unique(names: Seq<Seq<char>>, i: int)
    requires
        distinct(names),
        0 <= i < names.len(),
    ensures
        place_of(names, names[i]) == Some(i),
{
    let found = choose|k: int| 0 <= k < names.len() && names[k] == names[i];
    if found < i {
        assert(names[found] != names[i]);
    } else if i < found {
        assert(names[i] != names[found]);
    }
}

/// Picks the extractor for a file by the file's type.
pub struct ExtractorChooser<'extractor> {
    matcher: ignore::types::Types,
    extractors: &'extractor [Extractor],
}

impl<'extractor> ExtractorChooser<'extractor> {
    /// No file type is claimed by two extractors, and the matcher lets in
    /// the file types of the extractors and no others.
    #[verifier::type_invariant]
    spec fn well_formed(self) -> bool {
        &&& distinct(file_types(self.extractors@))
        &&& chosen(self.matcher) == file_types(self.extractors@)
    }

    /// The extractors that files are routed to.
    pub closed spec fn extractors_of(self) -> Seq<Extractor> {
        self.extractors@
    }

    /// The file type matcher.
    pub closed spec fn matcher_of(self) -> ignore::types::Types {
        self.matcher
    }

    /// The extractor that a matcher's answer leads to: the one that claims
    /// the file type that let the path in, and none for any other answer.
    pub open spec fn choice(self, found: FileTypeMatchView) -> Option<Extractor> {
        match found {
            FileTypeMatchView::Selected(Some(name)) => match place_of(
                file_types(self.extractors_of()),
                name,
            ) {
                Some(i) => Some(self.extractors_of()[i]),
                None => None,
            },
            _ => None,
        }
    }

    /// A chooser for a set of extractors. The matcher starts from the
    /// walker's own file type definitions and selects the file type of each
    /// extractor in turn. Two extractors with one file type are refused
    /// here, before any file is looked at, and nothing else is: the
    /// walker defines the file type of every language.
    pub fn from_extractors(extractors: &'extractor [Extractor]) -> (r: Result<
        ExtractorChooser<'extractor>,
        ChooserError,
    >)
        ensures
            match r {
                Ok(chooser) => {
                    &&& distinct(file_types(extractors@))
                    &&& chooser.extractors_of() == extractors@
                    &&& chosen(chooser.matcher_of()) == file_types(extractors@)
                },
                Err(error) => error == ChooserError::DuplicateQuery && !distinct(
                    file_types(extractors@),
                ),
            },
    {
        let mut types_builder = new_builder();
        add_defaults(&mut types_builder);
        let ghost names = file_types(extractors@);
        let mut i: usize = 0;
        proof {
            assert(names.take(0) =~= Seq::<Seq<char>>::empty());
            assert forall|language: Language| buildable(types_builder).contains(
                #[trigger] language.file_type(),
            ) by {
                lemma_file_type_is_listed(language, buildable(types_builder));
            }
        }
        while i < extractors.len()
            invariant
                i <= extractors.len(),
                names == file_types(extractors@),
                selected(types_builder) == names.take(i as int),
                distinct(names.take(i as int)),
                forall|language: Language| buildable(types_builder).contains(
                    #[trigger] language.file_type(),
                ),
            decreases extractors.len() - i,
        {
            let name = extractors[i].language().name_for_types_builder();
            assert(name@ == names[i as int]);
            let mut j: usize = 0;
            while j < i
                invariant
                    j <= i < extractors.len(),
                    names == file_types(extractors@),
                    name@ == names[i as int],
                    forall|k: int| 0 <= k < j ==> names[k] != name@,
                decreases i - j,
            {
                let earlier = extractors[j].language().name_for_types_builder();
                assert(earlier@ == names[j as int]);
                proof {
                    lemma_text_order_equal(earlier@, name@);
                }
                match order_of_text(earlier, name) {
                    Order::Equal => {
                        assert(names[j as int] == names[i as int]);
                        return Err(ChooserError::DuplicateQuery);
                    },
                    _ => {},
                }
                j = j + 1;
            }
            proof {
                lemma_file_type_is_not_all(extractors[i as int].language_of());
                let shorter = names.take(i as int);
                let longer = names.take(i + 1);
                assert(longer =~= shorter.push(name@));
                assert forall|a: int, b: int| 0 <= a < b < longer.len() implies #[trigger] longer[a]
                    != #[trigger] longer[b] by {
                    if b < i {
                        assert(shorter[a] != shorter[b]);
                    } else {
                        assert(names[a] != name@);
                    }
                }
            }
            select(&mut types_builder, name);
            i = i + 1;
        }
        proof {
            assert(names.take(i as int) =~= names);
            assert forall|k: int| 0 <= k < selected(types_builder).len() implies buildable(
                types_builder,
            ).contains(#[trigger] selected(types_builder)[k]) by {
                assert(names[k] == extractors@[k].language_of().file_type());
            }
            assert forall|a: int, b: int|
                0 <= a < names.len() && 0 <= b < names.len() && a != b implies names[a]
                != names[b] by {
                if a < b {
                    assert(names[a] != names[b]);
                } else {
                    assert(names[b] != names[a]);
                }
            }
        }
        match build(&types_builder) {
            Ok(matcher) => Ok(ExtractorChooser { matcher, extractors }),
            Err(error) => Err(ChooserError::Matcher(error_text(&error))),
        }
    }

    /// The extractor that a matcher's answer leads to.
    pub fn extractor_for_match(&self, found: &FileTypeMatch) -> (r: Option<&'extractor Extractor>)
        ensures
            match r {
                Some(extractor) => self.choice(found@) == Some(*extractor),
                None => self.choice(found@) is None,
            },
    {
        proof {
            use_type_invariant(self);
        }
        let name = match found {
            FileTypeMatch::Selected(Some(name)) => name.as_str(),
            _ => {
                return None;
            },
        };
        let ghost names = file_types(self.extractors@);
        assert(found@ == FileTypeMatchView::Selected(Some(name@)));
        let mut i: usize = 0;
        while i < self.extractors.len()
            invariant
                i <= self.extractors.len(),
                names == file_types(self.extractors@),
                distinct(names),
                found@ == FileTypeMatchView::Selected(Some(name@)),
                forall|k: int| 0 <= k < i ==> names[k] != name@,
            decreases self.extractors.len() - i,
        {
            let claimed = self.extractors[i].language().name_for_types_builder();
            assert(claimed@ == names[i as int]);
            proof {
                lemma_text_order_equal(claimed@, name@);
            }
            match order_of_text(claimed, name) {
                Order::Equal => {
                    proof {
                        lemma_place_is_unique(names, i as int);
                        assert(names[i as int] == name@);
                        assert(self.extractors_of()[i as int] == self.extractors[i as int]);
                    }
                    return Some(&self.extractors[i]);
                },
                _ => {},
            }
            i = i + 1;
        }
        None
    }

    /// The matcher's answer for a file or a directory. No file type
    /// decides for a directory.
    pub fn answer(&self, path: &str, is_dir: bool) -> (found: FileTypeMatch)
        ensures
            found@ == decided(self.matcher_of(), path@, is_dir),
            is_dir ==> found@ is Unmatched,
            found@ is Selected ==> self.choice(found@) is Some,
    {
        let found = matched(&self.matcher, path, is_dir);
        proof {
            use_type_invariant(self);
            if found@ is Selected {
                let name = found@->Selected_0->Some_0;
                let names = file_types(self.extractors@);
                let at = choose|at: int| 0 <= at < names.len() && names[at] == name;
                assert(names[at] == name);
            }
        }
        found
    }

    /// The extractor for a file, if one claims it: the one that `choice`
    /// gives for the matcher's answer. A directory goes to none. A file
    /// goes to an extractor exactly where the matcher lets it in, and then
    /// to the one extractor that claims the file type that let it in. The
    /// same path gets the same answer every time.
    pub fn extractor_for(&self, path: &str, is_dir: bool) -> (r: Option<&'extractor Extractor>)
        ensures
            match r {
                Some(extractor) => self.choice(decided(self.matcher_of(), path@, is_dir)) == Some(
                    *extractor,
                ),
                None => self.choice(decided(self.matcher_of(), path@, is_dir)) is None,
            },
            r is Some <==> decided(self.matcher_of(), path@, is_dir) is Selected,
            is_dir ==> r is None,
            r matches Some(extractor) ==> exists|i: int|
                {
                    &&& 0 <= i < self.extractors_of().len()
                    &&& #[trigger] self.extractors_of()[i] == *extractor
                    &&& forall|j: int|
                        0 <= j < self.extractors_of().len() && j != i ==> (
                        #[trigger] self.extractors_of()[j]).language_of().file_type()
                            != extractor.language_of().file_type()
                },
    {
        let found = self.answer(path, is_dir);
        let r = self.extractor_for_match(&found);
        proof {
            use_type_invariant(self);
            if let Some(extractor) = r {
                let names = file_types(self.extractors@);
                let name = found@->Selected_0.unwrap();
                let i = place_of(names, name).unwrap();
                assert(self.extractors_of()[i] == *extractor);
                assert forall|j: int|
                    0 <= j < self.extractors_of().len() && j != i implies (
                #[trigger] self.extractors_of()[j]).language_of().file_type()
                    != extractor.language_of().file_type() by {
                    assert(names[j] == self.extractors_of()[j].language_of().file_type());
                    assert(names[i] == extractor.language_of().file_type());
                    if j < i {
                        assert(names[j] != names[i]);
                    } else {
                        assert(names[i] != names[j]);
                    }
                }
            }
        }
        r
    }
}

/// An extractor that the chooser makes of an answer is one of its extractors.
pub proof fn lemma_choice_is_one_of(chooser: ExtractorChooser, found: FileTypeMatchView)
    requires
        chooser.choice(found) is Some,
    ensures
        chooser.extractors_of().contains(chooser.choice(found)->Some_0),
        found is Selected,
{
    let name = found->Selected_0->Some_0;
    let names = file_types(chooser.extractors_of());
    let i = place_of(names, name)->Some_0;
    assert(0 <= i < names.len());
    assert(chooser.extractors_of()[i] == chooser.choice(found)->Some_0);
}

} // verus!
