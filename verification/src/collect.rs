//! Turns what was read from a repository into the changes of a history.
//!
//! Reading the repository is the caller's work. The caller walks the branch
//! and hands over the names of the commits it met, asks `pair_commits` which
//! commits to compare, looks each pair up, and hands the answers to
//! `collect_diffs`.

use vstd::prelude::*;
use crate::diff::{diff_views, unset_points, DiffCollection, DiffResult, DiffResultView};
use crate::errors::BackendError;
use crate::matcher::{get_story_numbers, story_numbers_of, Matcher};

verus! {

/// Two commits that follow one another in a history: `first` is the older,
/// `second` the newer. Each is named by its hash, in hexadecimal.
#[derive(Debug)]
pub struct OidPair {
    pub first: String,
    pub second: String,
}

/// What an `OidPair` stands for.
pub ghost struct OidPairView {
    pub first: Seq<char>,
    pub second: Seq<char>,
}

impl View for OidPair {
    type V = OidPairView;

    open spec fn view(&self) -> OidPairView {
        OidPairView { first: self.first@, second: self.second@ }
    }
}

/// The pairs of a walk. The walk starts at the head of a branch and goes back
/// in time, so each step is the newer neighbour of the step after it. A step
/// is `None` where the walk failed to name a commit; such a step is part of no
/// pair. The last step, the oldest commit, is never the newer member of a
/// pair.
pub open spec fn pairs_of(walk: Seq<Option<Seq<char>>>) -> Seq<OidPairView>
    decreases walk.len(),
{
    if walk.len() < 2 {
        Seq::empty()
    } else {
        let earlier = pairs_of(walk.drop_last());
        match (walk[walk.len() - 2], walk[walk.len() - 1]) {
            (Some(newer), Some(older)) => earlier.push(OidPairView { first: older, second: newer }),
            _ => earlier,
        }
    }
}

/// The views of the steps of a walk.
pub open spec fn walk_view(walk: Seq<Option<String>>) -> Seq<Option<Seq<char>>> {
    Seq::new(walk.len(), |i: int| walk[i].deep_view())
}

/// The views of a list of pairs.
pub open spec fn pair_views(pairs: Seq<OidPair>) -> Seq<OidPairView> {
    Seq::new(pairs.len(), |i: int| pairs[i]@)
}

/// The pairs of commits to compare, from the steps of a walk that started at
/// the head of a branch: each step with the step after it, the later step
/// being the older commit.
pub fn pair_commits(walk: &Vec<Option<String>>) -> (pairs: Vec<OidPair>)
    ensures
        pair_views(pairs@) == pairs_of(walk_view(walk@)),
{
    let ghost steps = walk_view(walk@);
    let mut pairs: Vec<OidPair> = Vec::new();
    if walk.len() < 2 {
        assert(pair_views(pairs@) =~= pairs_of(steps));
        return pairs;
    }
    assert(pair_views(pairs@) =~= pairs_of(steps.take(1)));
    let mut i: usize = 1;
    while i < walk.len()
        invariant
            1 <= i <= walk.len(),
            steps == walk_view(walk@),
            pair_views(pairs@) == pairs_of(steps.take(i as int)),
        decreases walk.len() - i,
    {
        let ghost upto = steps.take(i as int + 1);
        let ghost before = pair_views(pairs@);
        proof {
            assert(upto.drop_last() =~= steps.take(i as int));
            assert(upto[upto.len() - 2] == steps[i as int - 1]);
            assert(upto[upto.len() - 1] == steps[i as int]);
        }
        match (&walk[i - 1], &walk[i]) {
            (Some(newer), Some(older)) => {
                let pair = OidPair { first: older.clone(), second: newer.clone() };
                pairs.push(pair);
                assert(pair_views(pairs@) =~= before.push(
                    OidPairView { first: older@, second: newer@ },
                ));
            },
            _ => {},
        }
        i += 1;
    }
    assert(steps.take(i as int) =~= steps);
    pairs
}

/// In a walk without failed steps, every step but the last is the newer
/// member of exactly one pair, the pair at its own place, and the step after
/// it is the older member.
pub proof fn lemma_pairs_of_whole_walk(walk: Seq<Option<Seq<char>>>)
    requires
        forall|i: int| 0 <= i < walk.len() ==> (#[trigger] walk[i]) is Some,
    ensures
        walk.len() >= 1 ==> pairs_of(walk).len() == walk.len() - 1,
        walk.len() == 0 ==> pairs_of(walk).len() == 0,
        forall|i: int|
            0 <= i < walk.len() - 1 ==> #[trigger] pairs_of(walk)[i] == (OidPairView {
                first: walk[i + 1]->0,
                second: walk[i]->0,
            }),
    decreases walk.len(),
{
    if walk.len() >= 2 {
        let shorter = walk.drop_last();
        assert forall|i: int| 0 <= i < shorter.len() implies (#[trigger] shorter[i]) is Some by {
            assert(shorter[i] == walk[i]);
        }
        lemma_pairs_of_whole_walk(shorter);
        assert(walk[walk.len() - 2] is Some);
        assert(walk[walk.len() - 1] is Some);
        assert forall|i: int| 0 <= i < walk.len() - 1 implies #[trigger] pairs_of(walk)[i] == (
        OidPairView { first: walk[i + 1]->0, second: walk[i]->0 }) by {
            if i < walk.len() - 2 {
                assert(pairs_of(walk)[i] == pairs_of(shorter)[i]);
                assert(shorter[i] == walk[i]);
                assert(shorter[i + 1] == walk[i + 1]);
            }
        }
    }
}

/// Every pair holds two neighbours of the walk, the newer one first in the
/// walk; so no walk has more pairs than it has steps after the first, and the
/// last step of a walk is the newer member of a pair only if the same commit
/// also stands earlier in the walk.
pub proof fn lemma_pairs_are_neighbours(walk: Seq<Option<Seq<char>>>, k: int)
    requires
        0 <= k < pairs_of(walk).len(),
    ensures
        pairs_of(walk).len() <= walk.len() - 1,
        exists|i: int|
            0 <= i < walk.len() - 1 && #[trigger] walk[i] == Some(pairs_of(walk)[k].second)
                && walk[i + 1] == Some(pairs_of(walk)[k].first),
    decreases walk.len(),
{
    if walk.len() >= 2 {
        let shorter = walk.drop_last();
        lemma_pairs_count(shorter);
        if k < pairs_of(shorter).len() {
            lemma_pairs_are_neighbours(shorter, k);
            let i = choose|i: int|
                0 <= i < shorter.len() - 1 && #[trigger] shorter[i] == Some(
                    pairs_of(shorter)[k].second,
                ) && shorter[i + 1] == Some(pairs_of(shorter)[k].first);
            assert(walk[i] == shorter[i]);
            assert(walk[i + 1] == shorter[i + 1]);
        } else {
            let i = walk.len() - 2;
            assert(walk[i] == Some(pairs_of(walk)[k].second));
        }
    }
}

/// In a walk that meets no commit twice, the oldest commit, the last step of
/// the walk, is the newer member of no pair.
pub proof fn lemma_oldest_is_never_newer(walk: Seq<Option<Seq<char>>>, k: int)
    requires
        forall|i: int, j: int|
            0 <= i < j < walk.len() && (#[trigger] walk[i]) is Some ==> walk[i] != #[trigger] walk[j],
        0 <= k < pairs_of(walk).len(),
    ensures
        walk.last() != Some(pairs_of(walk)[k].second),
{
    lemma_pairs_are_neighbours(walk, k);
    let i = choose|i: int|
        0 <= i < walk.len() - 1 && #[trigger] walk[i] == Some(pairs_of(walk)[k].second) && walk[i
            + 1] == Some(pairs_of(walk)[k].first);
    assert(walk[i] != walk[walk.len() - 1]);
}

/// A walk has at most one pair for each step after the first.
pub proof fn lemma_pairs_count(walk: Seq<Option<Seq<char>>>)
    ensures
        walk.len() >= 1 ==> pairs_of(walk).len() <= walk.len() - 1,
        walk.len() == 0 ==> pairs_of(walk).len() == 0,
    decreases walk.len(),
{
    if walk.len() >= 2 {
        lemma_pairs_count(walk.drop_last());
    }
}

/// The size of the difference between two trees.
#[derive(Clone, Copy, Debug, PartialEq, Eq, Structural)]
pub struct DiffStats {
    pub files_changed: usize,
    pub insertions: usize,
    pub deletions: usize,
}

/// What the repository answered when it was asked about a pair of commits:
/// the summary of each commit, `None` where the commit has none that is text,
/// and the size of the difference between their trees, or the error that kept
/// the repository from measuring it.
#[derive(Debug)]
pub struct CommitPair {
    pub first_summary: Option<String>,
    pub second_summary: Option<String>,
    pub diff: Result<DiffStats, BackendError>,
}

/// What a `CommitPair` stands for.
pub ghost struct CommitPairView {
    pub first_summary: Option<Seq<char>>,
    pub second_summary: Option<Seq<char>>,
    pub diff: Result<DiffStats, Seq<char>>,
}

impl View for CommitPair {
    type V = CommitPairView;

    open spec fn view(&self) -> CommitPairView {
        CommitPairView {
            first_summary: self.first_summary.deep_view(),
            second_summary: self.second_summary.deep_view(),
            diff: match self.diff {
                Ok(stats) => Ok(stats),
                Err(error) => Err(error@),
            },
        }
    }
}

/// A summary as text: a commit without one has the empty summary.
pub open spec fn summary_text(summary: Option<Seq<char>>) -> Seq<char> {
    match summary {
        Some(text) => text,
        None => Seq::empty(),
    }
}

/// The change that a measured pair of commits stands for. The story numbers
/// are those that the summary of the newer commit names: it is the newer
/// commit that describes the work done between the two.
pub open spec fn record_of(pair: CommitPairView, stats: DiffStats, matcher: Matcher) -> DiffResultView {
    DiffResultView {
        story_number: story_numbers_of(summary_text(pair.second_summary), matcher),
        points: unset_points(),
        first_summary: summary_text(pair.first_summary),
        second_summary: summary_text(pair.second_summary),
        files_changed: stats.files_changed as nat,
        insertions: stats.insertions as nat,
        deletions: stats.deletions as nat,
    }
}

/// The text of a summary, empty where there is none.
fn summary_or_empty(summary: &Option<String>) -> (text: String)
    ensures
        text@ == summary_text(summary.deep_view()),
{
    match summary {
        Some(text) => text.clone(),
        None => String::new(),
    }
}

/// The change between the two commits of a pair, or the error that kept the
/// repository from measuring it.
pub fn parse_commit_pair(pair: &CommitPair, matcher: Matcher) -> (result: Result<
    DiffResult,
    BackendError,
>)
    ensures
        match result {
            Ok(record) => pair@.diff is Ok && record@ == record_of(pair@, pair@.diff->Ok_0, matcher),
            Err(error) => pair@.diff == Err::<DiffStats, Seq<char>>(error@),
        },
{
    match &pair.diff {
        Ok(stats) => {
            let first_summary = summary_or_empty(&pair.first_summary);
            let second_summary = summary_or_empty(&pair.second_summary);
            let story_number = get_story_numbers(second_summary.as_str(), matcher);
            Ok(
                DiffResult {
                    story_number,
                    points: "0".to_owned(),
                    first_summary,
                    second_summary,
                    files_changed: stats.files_changed,
                    insertions: stats.insertions,
                    deletions: stats.deletions,
                },
            )
        },
        Err(error) => Err(BackendError { message: error.message.clone() }),
    }
}

/// The views of the answers for a list of pairs.
pub open spec fn lookup_views(lookups: Seq<Option<CommitPair>>) -> Seq<Option<CommitPairView>> {
    Seq::new(
        lookups.len(),
        |i: int|
            match lookups[i] {
                Some(pair) => Some(pair@),
                None => None,
            },
    )
}

/// The error of the first pair that the repository failed to measure, if
/// there is such a pair.
pub open spec fn first_failure(lookups: Seq<Option<CommitPairView>>) -> Option<Seq<char>>
    decreases lookups.len(),
{
    if lookups.len() == 0 {
        None
    } else {
        match first_failure(lookups.drop_last()) {
            Some(error) => Some(error),
            None => match lookups.last() {
                Some(pair) => match pair.diff {
                    Ok(_) => None,
                    Err(error) => Some(error),
                },
                None => None,
            },
        }
    }
}

/// The changes of the pairs that were measured, in the order of the pairs. A
/// pair whose commits could not be found gives no change.
pub open spec fn records_of(lookups: Seq<Option<CommitPairView>>, matcher: Matcher) -> Seq<
    DiffResultView,
>
    decreases lookups.len(),
{
    if lookups.len() == 0 {
        Seq::empty()
    } else {
        let earlier = records_of(lookups.drop_last(), matcher);
        match lookups.last() {
            Some(pair) => match pair.diff {
                Ok(stats) => earlier.push(record_of(pair, stats, matcher)),
                Err(_) => earlier,
            },
            None => earlier,
        }
    }
}

/// The changes of a history, from what the repository answered for each pair
/// of commits, in the order of the pairs. `None` stands for a pair whose
/// commits the repository could not find: it is passed over. A pair that the
/// repository found but failed to measure ends the collection with the error
/// of the first such pair.
pub fn collect_diffs(lookups: &Vec<Option<CommitPair>>, matcher: Matcher) -> (result: Result<
    DiffCollection,
    BackendError,
>)
    ensures
        match result {
            Ok(collection) => first_failure(lookup_views(lookups@)) is None && collection@
                == records_of(lookup_views(lookups@), matcher),
            Err(error) => first_failure(lookup_views(lookups@)) == Some(error@),
        },
{
    let ghost answers = lookup_views(lookups@);
    let mut diffs: Vec<DiffResult> = Vec::new();
    let mut i: usize = 0;
    assert(answers.take(0) =~= Seq::empty());
    assert(diff_views(diffs@) =~= records_of(answers.take(0), matcher));
    while i < lookups.len()
        invariant
            i <= lookups.len(),
            answers == lookup_views(lookups@),
            first_failure(answers.take(i as int)) is None,
            diff_views(diffs@) == records_of(answers.take(i as int), matcher),
        decreases lookups.len() - i,
    {
        let ghost upto = answers.take(i as int + 1);
        let ghost before = diff_views(diffs@);
        proof {
            assert(upto.drop_last() =~= answers.take(i as int));
            assert(upto.last() == answers[i as int]);
        }
        match &lookups[i] {
            Some(pair) => {
                match parse_commit_pair(pair, matcher) {
                    Ok(record) => {
                        diffs.push(record);
                        assert(diff_views(diffs@) =~= before.push(record@));
                    },
                    Err(error) => {
                        proof {
                            lemma_first_failure_stays(answers, i as int + 1);
                        }
                        return Err(error);
                    },
                }
            },
            None => {},
        }
        i += 1;
    }
    assert(answers.take(i as int) =~= answers);
    Ok(DiffCollection { diffs })
}

/// Once a pair has failed, pairs after it do not change which failure is the
/// first.
pub proof fn lemma_first_failure_stays(lookups: Seq<Option<CommitPairView>>, k: int)
    requires
        0 <= k <= lookups.len(),
        first_failure(lookups.take(k)) is Some,
    ensures
        first_failure(lookups) == first_failure(lookups.take(k)),
    decreases lookups.len(),
{
    if k == lookups.len() {
        assert(lookups.take(k) =~= lookups);
    } else {
        assert(lookups.drop_last().take(k) =~= lookups.take(k));
        lemma_first_failure_stays(lookups.drop_last(), k);
    }
}

} // verus!
