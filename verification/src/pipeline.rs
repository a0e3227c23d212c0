//! What is done with the per-file results of a run: gathering them, with
//! the first failure ending the run, and putting them in a stable order.
use crate::extractor::{ExtractedFile, Extractor, FileView};
use crate::extractor_chooser::ExtractorChooser;
use crate::file_types::{decided, FileTypeMatch, FileTypeMatchView};
use crate::lines::file_views;
use crate::order::{lemma_lawful_is_total, not_after, Order};
use crate::record_order::{file_order, file_ordering, lemma_file_order_lawful, order_of_files};
use vstd::multiset::Multiset;
use vstd::prelude::*;
use vstd::relations::sorted_by;
use vstd::seq_lib::{lemma_multiset_commutative, lemma_sorted_unique, to_multiset_build};

verus! {

/// Whether an outcome is a failure.
pub open spec fn is_failure<T, E>(outcome: Result<Option<T>, E>) -> bool {
    outcome is Err
}

/// The records among some outcomes, in their order: the outcomes that are
/// neither failures nor empty.
pub open spec fn records<T, E>(outcomes: Seq<Result<Option<T>, E>>) -> Seq<T>
    decreases outcomes.len(),
{
    if outcomes.len() == 0 {
        Seq::empty()
    } else {
        match outcomes.last() {
            Ok(Some(record)) => records(outcomes.drop_last()).push(record),
            _ => records(outcomes.drop_last()),
        }
    }
}

/// The items of a list in the opposite order.
pub fn reversed<T>(items: Vec<T>) -> (r: Vec<T>)
    ensures
        r@ == items@.reverse(),
{
    let mut items = items;
    let ghost given = items@;
    let mut r: Vec<T> = Vec::new();
    while items.len() > 0
        invariant
            items@ == given.take(items.len() as int),
            items.len() <= given.len(),
            r.len() == given.len() - items.len(),
            forall|k: int| 0 <= k < r.len() ==> r[k] == given[given.len() - 1 - k],
        decreases items.len(),
    {
        match items.pop() {
            Some(item) => {
                r.push(item);
                assert(items@ =~= given.take(items.len() as int));
            },
            None => {},
        }
    }
    assert(r@ =~= given.reverse());
    r
}

/// Gathers the outcomes of a run. One failure fails the whole run: the
/// first failure in the order of the outcomes is handed back, and no
/// record. Without a failure the records come back in the order of their
/// outcomes, and the outcomes with nothing to report leave no trace.
pub fn gather<T, E>(outcomes: Vec<Result<Option<T>, E>>) -> (r: Result<Vec<T>, E>)
    ensures
        match r {
            Ok(files) => {
                &&& forall|i: int| 0 <= i < outcomes.len() ==> !is_failure(#[trigger] outcomes[i])
                &&& files@ == records(outcomes@)
            },
            Err(error) => exists|i: int|
                {
                    &&& 0 <= i < outcomes.len()
                    &&& #[trigger] outcomes[i] == Err::<Option<T>, E>(error)
                    &&& forall|j: int| 0 <= j < i ==> !is_failure(#[trigger] outcomes[j])
                },
        },
{
    let ghost given = outcomes@;
    let mut rest = reversed(outcomes);
    let mut files: Vec<T> = Vec::new();
    let ghost mut done: int = 0;
    assert(given.take(0) =~= Seq::empty());
    while rest.len() > 0
        invariant
            given == outcomes@,
            0 <= done <= given.len(),
            rest.len() == given.len() - done,
            forall|k: int| 0 <= k < rest.len() ==> rest[k] == given[given.len() - 1 - k],
            forall|i: int| 0 <= i < done ==> !is_failure(#[trigger] given[i]),
            files@ == records(given.take(done)),
        decreases rest.len(),
    {
        let ghost at = done;
        match rest.pop() {
            Some(outcome) => {
                proof {
                    assert(outcome == given[at]);
                    let now = given.take(at + 1);
                    assert(now.drop_last() =~= given.take(at));
                    assert(now.last() == outcome);
                }
                match outcome {
                    Ok(Some(file)) => {
                        files.push(file);
                    },
                    Ok(None) => {},
                    Err(error) => {
                        assert(outcomes[at] == Err::<Option<T>, E>(error));
                        return Err(error);
                    },
                }
                proof {
                    done = at + 1;
                }
            },
            None => {},
        }
    }
    assert(given.take(done) =~= given);
    Ok(files)
}

/// "Not after" in the order of file records.
pub open spec fn file_le(a: FileView, b: FileView) -> bool {
    !(file_order(a, b) is Greater)
}

/// Whether a sequence of file records is in order.
pub open spec fn sorted(files: Seq<FileView>) -> bool {
    forall|i: int, j: int| 0 <= i < j < files.len() ==> file_le(#[trigger] files[i], #[trigger] files[j])
}

/// "Not after" is transitive.
pub proof fn lemma_file_le_transitive(a: FileView, b: FileView, c: FileView)
    requires
        file_le(a, b),
        file_le(b, c),
    ensures
        file_le(a, c),
{
    lemma_file_order_lawful();
    lemma_lawful_is_total(file_ordering());
    let le = not_after(file_ordering());
    assert(le(a, b) && le(b, c));
    assert(le(a, c));
}

/// The state of a merge: `down` holds the records taken so far, from the
/// last to the first, and each of them is not before any record that is
/// still waiting in `left` or `right`.
spec fn merging(
    all: Multiset<FileView>,
    left: Seq<FileView>,
    right: Seq<FileView>,
    down: Seq<FileView>,
) -> bool {
    &&& sorted(left)
    &&& sorted(right)
    &&& all == down.to_multiset().add(left.to_multiset()).add(right.to_multiset())
    &&& forall|i: int, j: int|
        0 <= i < j < down.len() ==> file_le(#[trigger] down[j], #[trigger] down[i])
    &&& forall|i: int, k: int|
        0 <= i < down.len() && 0 <= k < left.len() ==> file_le(
            #[trigger] left[k],
            #[trigger] down[i],
        )
    &&& forall|i: int, k: int|
        0 <= i < down.len() && 0 <= k < right.len() ==> file_le(
            #[trigger] right[k],
            #[trigger] down[i],
        )
}

/// Taking the last record of one side keeps the state of the merge, where
/// that record is not before the last record of the other side.
proof fn lemma_merge_step(
    all: Multiset<FileView>,
    from: Seq<FileView>,
    other: Seq<FileView>,
    down: Seq<FileView>,
)
    requires
        merging(all, from, other, down) || merging(all, other, from, down),
        from.len() > 0,
        other.len() == 0 || file_le(other.last(), from.last()),
    ensures
        merging(all, from, other, down) ==> merging(
            all,
            from.drop_last(),
            other,
            down.push(from.last()),
        ),
        merging(all, other, from, down) ==> merging(
            all,
            other,
            from.drop_last(),
            down.push(from.last()),
        ),
{
    broadcast use vstd::multiset::group_multiset_axioms;

    let x = from.last();
    let rest = from.drop_last();
    let longer = down.push(x);
    assert(from =~= rest.push(x));
    to_multiset_build(rest, x);
    to_multiset_build(down, x);
    assert(longer.to_multiset().add(rest.to_multiset()).add(other.to_multiset()) =~= down.to_multiset().add(
        from.to_multiset(),
    ).add(other.to_multiset()));
    assert(longer.to_multiset().add(other.to_multiset()).add(rest.to_multiset()) =~= down.to_multiset().add(
        other.to_multiset(),
    ).add(from.to_multiset()));
    assert forall|i: int, j: int| 0 <= i < j < rest.len() implies file_le(
        #[trigger] rest[i],
        #[trigger] rest[j],
    ) by {
        assert(file_le(from[i], from[j]));
    }
    assert forall|i: int, j: int| 0 <= i < j < longer.len() implies file_le(
        #[trigger] longer[j],
        #[trigger] longer[i],
    ) by {
        if j < down.len() {
            assert(file_le(down[j], down[i]));
        } else {
            assert(file_le(from[from.len() - 1], down[i]));
        }
    }
    assert forall|i: int, k: int| 0 <= i < longer.len() && 0 <= k < rest.len() implies file_le(
        #[trigger] rest[k],
        #[trigger] longer[i],
    ) by {
        if i < down.len() {
            assert(file_le(from[k], down[i]));
        } else {
            assert(file_le(from[k], from[from.len() - 1]));
        }
    }
    assert forall|i: int, k: int| 0 <= i < longer.len() && 0 <= k < other.len() implies file_le(
        #[trigger] other[k],
        #[trigger] longer[i],
    ) by {
        if i < down.len() {
            assert(file_le(other[k], down[i]));
        } else {
            if k < other.len() - 1 {
                assert(file_le(other[k], other[other.len() - 1]));
            } else {
                lemma_file_le_reflexive(other[k]);
            }
            lemma_file_le_transitive(other[k], other.last(), x);
        }
    }
}

/// A sequence without items has no items as a multiset either.
proof fn lemma_nothing(s: Seq<FileView>)
    requires
        s.len() == 0,
    ensures
        s.to_multiset() == Multiset::<FileView>::empty(),
{
    broadcast use vstd::multiset::group_multiset_axioms;
    broadcast use vstd::seq_lib::group_to_multiset_ensures;

    assert(s.to_multiset().len() == 0);
    assert(s.to_multiset() =~= Multiset::<FileView>::empty());
}

/// Merges two lists that are in order into one that is.
fn merge<'q>(left: Vec<ExtractedFile<'q>>, right: Vec<ExtractedFile<'q>>) -> (out: Vec<
    ExtractedFile<'q>,
>)
    requires
        sorted(file_views(left@)),
        sorted(file_views(right@)),
    ensures
        sorted(file_views(out@)),
        file_views(out@).to_multiset() == file_views(left@).to_multiset().add(
            file_views(right@).to_multiset(),
        ),
{
    let ghost all = file_views(left@).to_multiset().add(file_views(right@).to_multiset());
    let mut left = left;
    let mut right = right;
    // The records from the last to the first.
    let mut down: Vec<ExtractedFile<'q>> = Vec::new();
    proof {
        broadcast use vstd::multiset::group_multiset_axioms;

        lemma_nothing(file_views(down@));
        assert(all =~= file_views(down@).to_multiset().add(file_views(left@).to_multiset()).add(
            file_views(right@).to_multiset(),
        ));
    }
    while left.len() > 0 || right.len() > 0
        invariant
            merging(all, file_views(left@), file_views(right@), file_views(down@)),
        decreases left.len() + right.len(),
    {
        let from_left: bool = if right.len() == 0 {
            true
        } else if left.len() == 0 {
            false
        } else {
            match order_of_files(&left[left.len() - 1], &right[right.len() - 1]) {
                Order::Greater => true,
                _ => false,
            }
        };
        let ghost old_left = file_views(left@);
        let ghost old_right = file_views(right@);
        let ghost old_down = file_views(down@);
        proof {
            if left.len() > 0 && right.len() > 0 {
                lemma_file_order_flip(old_left.last(), old_right.last());
            }
            if from_left {
                lemma_merge_step(all, old_left, old_right, old_down);
            } else {
                lemma_merge_step(all, old_right, old_left, old_down);
            }
        }
        let popped = if from_left {
            left.pop()
        } else {
            right.pop()
        };
        match popped {
            Some(file) => {
                down.push(file);
                proof {
                    assert(file_views(down@) =~= old_down.push(file@));
                    if from_left {
                        assert(file_views(left@) =~= old_left.drop_last());
                        assert(file_views(right@) =~= old_right);
                    } else {
                        assert(file_views(right@) =~= old_right.drop_last());
                        assert(file_views(left@) =~= old_left);
                    }
                }
            },
            None => {},
        }
    }
    proof {
        broadcast use vstd::multiset::group_multiset_axioms;

        lemma_nothing(file_views(left@));
        lemma_nothing(file_views(right@));
        assert(all =~= file_views(down@).to_multiset());
    }
    let ghost descending = file_views(down@);
    let out = reversed(down);
    proof {
        assert(file_views(out@) =~= descending.reverse());
        descending.lemma_reverse_to_multiset();
        assert forall|i: int, j: int| 0 <= i < j < out.len() implies file_le(
            #[trigger] file_views(out@)[i],
            #[trigger] file_views(out@)[j],
        ) by {
            let n = descending.len();
            assert(file_views(out@)[i] == descending[n - 1 - i]);
            assert(file_views(out@)[j] == descending[n - 1 - j]);
        }
    }
    out
}

/// A file record is not after itself.
pub proof fn lemma_file_le_reflexive(a: FileView)
    ensures
        file_le(a, a),
{
    lemma_file_order_lawful();
    let ord = file_ordering();
    assert(ord(a, a) is Equal);
}

/// A record that is after another is not before it.
proof fn lemma_file_order_flip(a: FileView, b: FileView)
    ensures
        (file_order(a, b) is Greater) ==> file_le(b, a),
{
    lemma_file_order_lawful();
    let ord = file_ordering();
    assert(ord(a, b) == file_order(a, b));
    assert(ord(b, a) == file_order(b, a));
    if file_order(a, b) is Greater {
        assert(ord(b, a) is Less);
    }
}

/// Puts file records in order: by path, then language, then matches.
/// The records that come back are the records that went in, each as often
/// as it went in; only their places change. This is a merge sort.
pub fn sort<'q>(files: Vec<ExtractedFile<'q>>) -> (out: Vec<ExtractedFile<'q>>)
    ensures
        sorted(file_views(out@)),
        file_views(out@).to_multiset() == file_views(files@).to_multiset(),
    decreases files.len(),
{
    if files.len() <= 1 {
        return files;
    }
    let ghost whole = file_views(files@);
    let mut left = files;
    let middle: usize = left.len() / 2;
    let right = left.split_off(middle);
    proof {
        assert(whole =~= file_views(left@) + file_views(right@));
        lemma_multiset_commutative(file_views(left@), file_views(right@));
    }
    let left = sort(left);
    let right = sort(right);
    merge(left, right)
}

/// Sorting gives one answer for one collection of records: however the
/// records were arranged before, two arrangements of the same records are
/// sorted into the same sequence.
pub proof fn lemma_sorted_is_unique(a: Seq<FileView>, b: Seq<FileView>)
    requires
        sorted(a),
        sorted(b),
        a.to_multiset() == b.to_multiset(),
    ensures
        a == b,
{
    lemma_file_order_lawful();
    lemma_lawful_is_total(file_ordering());
    let le = not_after(file_ordering());
    assert(sorted_by(a, le)) by {
        assert forall|i: int, j: int| 0 <= i < j < a.len() implies #[trigger] le(a[i], a[j]) by {
            assert(file_le(a[i], a[j]));
        }
    }
    assert(sorted_by(b, le)) by {
        assert forall|i: int, j: int| 0 <= i < j < b.len() implies #[trigger] le(b[i], b[j]) by {
            assert(file_le(b[i], b[j]));
        }
    }
    lemma_sorted_unique(a, b, le);
}

/// Puts the records of a run in their final order: sorted where a stable
/// order was asked for, and as they came where it was not. Either way the
/// records are the same records.
pub fn arrange<'q>(files: Vec<ExtractedFile<'q>>, stable: bool) -> (out: Vec<ExtractedFile<'q>>)
    ensures
        file_views(out@).to_multiset() == file_views(files@).to_multiset(),
        stable ==> sorted(file_views(out@)),
        !stable ==> out@ == files@,
{
    if stable {
        sort(files)
    } else {
        files
    }
}

/// The end of a run: the outcomes of the files are gathered, and the
/// records are put in their final order. One failure fails the run, and
/// then there are no records at all.
pub fn collect<'q, E>(outcomes: Vec<Result<Option<ExtractedFile<'q>>, E>>, stable: bool) -> (r:
    Result<Vec<ExtractedFile<'q>>, E>)
    ensures
        match r {
            Ok(files) => {
                &&& forall|i: int| 0 <= i < outcomes.len() ==> !is_failure(#[trigger] outcomes[i])
                &&& file_views(files@).to_multiset() == file_views(
                    records(outcomes@),
                ).to_multiset()
                &&& stable ==> sorted(file_views(files@))
                &&& !stable ==> files@ == records(outcomes@)
            },
            Err(error) => exists|i: int|
                {
                    &&& 0 <= i < outcomes.len()
                    &&& #[trigger] outcomes[i] == Err::<Option<ExtractedFile<'q>>, E>(error)
                    &&& forall|j: int| 0 <= j < i ==> !is_failure(#[trigger] outcomes[j])
                },
        },
{
    match gather(outcomes) {
        Ok(files) => Ok(arrange(files, stable)),
        Err(error) => Err(error),
    }
}

/// A file or directory that the walk came across.
#[derive(Clone, Debug, PartialEq, Eq)]
pub struct Entry {
    pub path: String,
    pub is_dir: bool,
}

/// An entry that goes to an extractor: its place among the entries, and
/// the extractor.
#[derive(Debug)]
pub struct Routed<'e> {
    pub index: usize,
    pub extractor: &'e Extractor,
}

/// The views of some answers of the matcher.
pub open spec fn answer_views(answers: Seq<FileTypeMatch>) -> Seq<FileTypeMatchView> {
    answers.map_values(|a: FileTypeMatch| a@)
}

/// What some routed entries hold, as mathematics: the place of each
/// among the entries, and its extractor.
pub open spec fn routed_views(routed: Seq<Routed>) -> Seq<(int, Extractor)> {
    routed.map_values(|r: Routed| (r.index as int, *r.extractor))
}

/// Where the entries of a walk go, given the matcher's answer for each:
/// an entry goes to the extractor that the chooser makes of its answer,
/// and an entry of which it makes none is dropped. The others keep their
/// order.
pub open spec fn routing(chooser: ExtractorChooser, answers: Seq<FileTypeMatchView>) -> Seq<
    (int, Extractor),
>
    decreases answers.len(),
{
    if answers.len() == 0 {
        Seq::empty()
    } else {
        let before = routing(chooser, answers.drop_last());
        match chooser.choice(answers.last()) {
            Some(extractor) => before.push((answers.len() - 1, extractor)),
            None => before,
        }
    }
}

/// The matcher's answers for the entries of a walk, one for each entry.
pub open spec fn decisions(chooser: ExtractorChooser, entries: Seq<Entry>) -> Seq<
    FileTypeMatchView,
> {
    Seq::new(
        entries.len(),
        |i: int| decided(chooser.matcher_of(), entries[i].path@, entries[i].is_dir),
    )
}

/// What holds of every routing: each routed entry is at a place of the
/// answers, the extractor is what the chooser makes of the answer there,
/// and the places ascend.
pub proof fn lemma_routing(chooser: ExtractorChooser, answers: Seq<FileTypeMatchView>)
    ensures
        forall|k: int|
            0 <= k < routing(chooser, answers).len() ==> {
                &&& 0 <= (#[trigger] routing(chooser, answers)[k]).0 < answers.len()
                &&& chooser.choice(answers[routing(chooser, answers)[k].0]) == Some(
                    routing(chooser, answers)[k].1,
                )
            },
        forall|a: int, b: int|
            0 <= a < b < routing(chooser, answers).len() ==> (#[trigger] routing(
                chooser,
                answers,
            )[a]).0 < (#[trigger] routing(chooser, answers)[b]).0,
    decreases answers.len(),
{
    if answers.len() > 0 {
        let shorter = answers.drop_last();
        lemma_routing(chooser, shorter);
        let before = routing(chooser, shorter);
        let all = routing(chooser, answers);
        assert forall|k: int| 0 <= k < all.len() implies {
            &&& 0 <= (#[trigger] all[k]).0 < answers.len()
            &&& chooser.choice(answers[all[k].0]) == Some(all[k].1)
        } by {
            if k < before.len() {
                assert(all[k] == before[k]);
                assert(shorter[before[k].0] == answers[before[k].0]);
            }
        }
        assert forall|a: int, b: int| 0 <= a < b < all.len() implies (#[trigger] all[a]).0 < (
        #[trigger] all[b]).0 by {
            assert(all[a] == before[a]);
            if b < before.len() {
                assert(all[b] == before[b]);
            }
        }
    }
}

/// Routes the entries of a walk by the matcher's answers for them, one
/// answer for each entry: an entry goes to the extractor that the chooser
/// makes of its answer, and an entry of which it makes none is dropped.
pub fn route_answers<'e>(chooser: &ExtractorChooser<'e>, answers: &Vec<FileTypeMatch>) -> (routed:
    Vec<Routed<'e>>)
    ensures
        routed_views(routed@) == routing(*chooser, answer_views(answers@)),
{
    let ghost views = answer_views(answers@);
    let mut routed: Vec<Routed<'e>> = Vec::new();
    let mut i: usize = 0;
    proof {
        assert(views.take(0) =~= Seq::<FileTypeMatchView>::empty());
        assert(routed_views(routed@) =~= routing(*chooser, views.take(0)));
    }
    while i < answers.len()
        invariant
            i <= answers.len(),
            views == answer_views(answers@),
            routed_views(routed@) == routing(*chooser, views.take(i as int)),
        decreases answers.len() - i,
    {
        proof {
            let now = views.take(i + 1);
            assert(now.drop_last() =~= views.take(i as int));
            assert(now.last() == answers[i as int]@);
        }
        match chooser.extractor_for_match(&answers[i]) {
            Some(extractor) => {
                let ghost before = routed_views(routed@);
                routed.push(Routed { index: i, extractor });
                proof {
                    assert(routed_views(routed@) =~= before.push((i as int, *extractor)));
                }
            },
            None => {},
        }
        i = i + 1;
    }
    proof {
        assert(views.take(i as int) =~= views);
    }
    routed
}

/// Routes the entries of a walk. The matcher is asked about each entry,
/// and the entries are routed by its answers as `routing` says: the
/// entries that no extractor claims are dropped here, before anything of
/// them is read, and the others keep their order. A directory is never
/// routed, and an entry is routed to an extractor of the chooser.
pub fn route<'e>(chooser: &ExtractorChooser<'e>, entries: &Vec<Entry>) -> (routed: Vec<Routed<'e>>)
    ensures
        routed_views(routed@) == routing(*chooser, decisions(*chooser, entries@)),
        forall|k: int|
            0 <= k < routed.len() ==> {
                &&& (#[trigger] routed[k]).index < entries.len()
                &&& !entries[routed[k].index as int].is_dir
                &&& chooser.extractors_of().contains(*routed[k].extractor)
            },
        forall|a: int, b: int|
            0 <= a < b < routed.len() ==> (#[trigger] routed[a]).index < (#[trigger] routed[b]).index,
{
    let mut answers: Vec<FileTypeMatch> = Vec::new();
    let mut i: usize = 0;
    while i < entries.len()
        invariant
            i <= entries.len(),
            answers.len() == i,
            forall|k: int|
                0 <= k < i ==> (#[trigger] answers[k])@ == decided(
                    chooser.matcher_of(),
                    entries[k].path@,
                    entries[k].is_dir,
                ),
            forall|k: int| 0 <= k < i && entries[k].is_dir ==> (#[trigger] answers[k])@ is Unmatched,
        decreases entries.len() - i,
    {
        let entry = &entries[i];
        answers.push(chooser.answer(entry.path.as_str(), entry.is_dir));
        i = i + 1;
    }
    let routed = route_answers(chooser, &answers);
    proof {
        let views = answer_views(answers@);
        let all = routing(*chooser, views);
        assert(views =~= decisions(*chooser, entries@));
        lemma_routing(*chooser, views);
        assert forall|k: int| 0 <= k < routed.len() implies {
            &&& (#[trigger] routed[k]).index < entries.len()
            &&& !entries[routed[k].index as int].is_dir
            &&& chooser.extractors_of().contains(*routed[k].extractor)
        } by {
            assert(routed_views(routed@)[k] == all[k]);
            let at = all[k].0;
            assert(chooser.choice(views[at]) == Some(all[k].1));
            crate::extractor_chooser::lemma_choice_is_one_of(*chooser, views[at]);
            if entries[at].is_dir {
                assert(answers[at]@ is Unmatched);
            }
        }
        assert forall|a: int, b: int| 0 <= a < b < routed.len() implies (#[trigger] routed[a]).index
            < (#[trigger] routed[b]).index by {
            assert(routed_views(routed@)[a] == all[a]);
            assert(routed_views(routed@)[b] == all[b]);
        }
    }
    routed
}

} // verus!
