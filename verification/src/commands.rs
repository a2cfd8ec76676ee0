//! The three things that can be asked of the library: collect the changes of
//! a history, total collected changes, or do both in one run.

use vstd::prelude::*;
use crate::collect::{
    collect_diffs, first_failure, lookup_views, records_of, CommitPair, CommitPairView,
};
use crate::collection::DiffTotalCollection;
use crate::diff::{
    diff_views, DiffCollection, DiffResult, DiffResultView, DiffTotalView, StoryPointCollection,
    StoryPointView,
};
use crate::errors::{CliError, CliErrorView};
use crate::matcher::Matcher;
use crate::points::{add_points, merged};
use crate::totals::{calculate_diff_totals, overflow_text, totals_fit, totals_of};

verus! {

/// The changes of several collections as one history: those of the first
/// collection, then those of the second, and so on.
pub open spec fn joined(collections: Seq<Seq<DiffResultView>>) -> Seq<DiffResultView>
    decreases collections.len(),
{
    if collections.len() == 0 {
        Seq::empty()
    } else {
        joined(collections.drop_last()) + collections.last()
    }
}

/// The views of a list of collections.
pub open spec fn collection_views(collections: Seq<DiffCollection>) -> Seq<Seq<DiffResultView>> {
    Seq::new(collections.len(), |i: int| collections[i]@)
}

/// The assignments that were given, if any were.
pub open spec fn given_points(points: Option<StoryPointCollection>) -> Option<Seq<StoryPointView>> {
    match points {
        Some(points) => Some(points@),
        None => None,
    }
}

/// What a run that ends in totals stands for.
pub open spec fn outcome_view(result: Result<DiffTotalCollection, CliError>) -> Result<
    Map<Seq<char>, DiffTotalView>,
    CliErrorView,
> {
    match result {
        Ok(totals) => Ok(totals@),
        Err(error) => Err(error@),
    }
}

/// What totalling a history gives: its totals, with the points merged in
/// where points were given, or the error that a total cannot be held.
pub open spec fn totalled(records: Seq<DiffResultView>, points: Option<Seq<StoryPointView>>) -> Result<
    Map<Seq<char>, DiffTotalView>,
    CliErrorView,
> {
    if !totals_fit(records) {
        Err(CliErrorView::Input(overflow_text()))
    } else {
        match points {
            Some(points) => Ok(merged(totals_of(records), points)),
            None => Ok(totals_of(records)),
        }
    }
}

/// What a run over the answers of a repository gives: the error of the first
/// pair that could not be measured, or the totals of the changes.
pub open spec fn run_outcome(
    lookups: Seq<Option<CommitPairView>>,
    matcher: Matcher,
    points: Option<Seq<StoryPointView>>,
) -> Result<Map<Seq<char>, DiffTotalView>, CliErrorView> {
    match first_failure(lookups) {
        Some(failure) => Err(CliErrorView::Git(failure)),
        None => totalled(records_of(lookups, matcher), points),
    }
}

/// Makes one collection of several, keeping the order of the collections and
/// of the changes in each.
pub fn join_collections(collections: Vec<DiffCollection>) -> (all: DiffCollection)
    ensures
        all@ == joined(collection_views(collections@)),
{
    let ghost views = collection_views(collections@);
    let mut collections = collections;
    let mut diffs: Vec<DiffResult> = Vec::new();
    let mut i: usize = 0;
    assert(views.take(0) =~= Seq::empty());
    assert(diff_views(diffs@) =~= joined(views.take(0)));
    while i < collections.len()
        invariant
            i <= collections.len(),
            views.len() == collections.len(),
            forall|k: int| i <= k < collections.len() ==> (#[trigger] collections[k])@ == views[k],
            diff_views(diffs@) == joined(views.take(i as int)),
        decreases collections.len() - i,
    {
        let ghost before = diff_views(diffs@);
        let ghost upto = views.take(i as int + 1);
        proof {
            assert(upto.drop_last() =~= views.take(i as int));
            assert(upto.last() == views[i as int]);
        }
        let mut taken: Vec<DiffResult> = Vec::new();
        let ghost held = collections[i as int].diffs@;
        std::mem::swap(&mut taken, &mut collections[i].diffs);
        diffs.append(&mut taken);
        assert(diff_views(diffs@) =~= before + diff_views(held));
        i += 1;
    }
    assert(views.take(i as int) =~= views);
    DiffCollection { diffs }
}

/// Collects the changes of a history from what the repository answered for
/// each pair of commits.
pub fn collect_repo(lookups: &Vec<Option<CommitPair>>, matcher: Matcher) -> (result: Result<
    DiffCollection,
    CliError,
>)
    ensures
        match result {
            Ok(collection) => first_failure(lookup_views(lookups@)) is None && collection@
                == records_of(lookup_views(lookups@), matcher),
            Err(error) => first_failure(lookup_views(lookups@)) is Some && error@
                == CliErrorView::Git(first_failure(lookup_views(lookups@))->0),
        },
{
    match collect_diffs(lookups, matcher) {
        Ok(collection) => Ok(collection),
        Err(error) => Err(CliError::Git(error)),
    }
}

/// Totals the changes of a collection and merges the points in, where points
/// were given.
pub fn total(diff_collection: &DiffCollection, points: &Option<StoryPointCollection>) -> (result:
    Result<DiffTotalCollection, CliError>)
    ensures
        outcome_view(result) == totalled(diff_collection@, given_points(*points)),
{
    match calculate_diff_totals(diff_collection) {
        Ok(totals) => {
            let mut totals = totals;
            add_points(&mut totals, points);
            Ok(totals)
        },
        Err(error) => Err(CliError::Input(error)),
    }
}

/// Collects the changes of a history and totals them. An error of the
/// repository ends the run before anything is totalled.
pub fn run(
    lookups: &Vec<Option<CommitPair>>,
    matcher: Matcher,
    points: &Option<StoryPointCollection>,
) -> (result: Result<DiffTotalCollection, CliError>)
    ensures
        outcome_view(result) == run_outcome(lookup_views(lookups@), matcher, given_points(*points)),
{
    match collect_repo(lookups, matcher) {
        Ok(collection) => total(&collection, points),
        Err(error) => Err(error),
    }
}

} // verus!
