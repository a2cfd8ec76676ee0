//! Merges the points that were assigned to stories into their totals.

use vstd::prelude::*;
use crate::collection::{
    distinct_ids, entries_of, find_total, lemma_map_of_entry, lemma_map_of_key, map_of,
    DiffTotalCollection,
};
use crate::diff::{DiffTotal, DiffTotalView, StoryPointCollection, StoryPointView};

verus! {

/// The points that a list of assignments gives a story: those of the last
/// assignment for it, if there is one.
pub open spec fn assigned_points(points: Seq<StoryPointView>, id: Seq<char>) -> Option<Seq<char>>
    decreases points.len(),
{
    if points.len() == 0 {
        None
    } else if points.last().story_number == id {
        Some(points.last().points)
    } else {
        assigned_points(points.drop_last(), id)
    }
}

/// A total with the points that were assigned to it, or as it was if none
/// were. Nothing but the points ever changes.
pub open spec fn with_points(total: DiffTotalView, points: Option<Seq<char>>) -> DiffTotalView {
    match points {
        Some(points) => DiffTotalView {
            story_number: total.story_number,
            points,
            files_changed: total.files_changed,
            insertions: total.insertions,
            deletions: total.deletions,
            total_diff_results: total.total_diff_results,
        },
        None => total,
    }
}

/// A total after a list of assignments was merged in.
pub open spec fn merged_total(total: DiffTotalView, points: Seq<StoryPointView>) -> DiffTotalView {
    with_points(total, assigned_points(points, total.story_number))
}

/// Totals after a list of assignments was merged in: the same stories, each
/// with the points that were assigned to it.
pub open spec fn merged(totals: Map<Seq<char>, DiffTotalView>, points: Seq<StoryPointView>) -> Map<
    Seq<char>,
    DiffTotalView,
> {
    Map::new(
        |id: Seq<char>| totals.contains_key(id),
        |id: Seq<char>| merged_total(totals[id], points),
    )
}

/// A list of totals after a list of assignments was merged into each.
pub open spec fn merged_entries(entries: Seq<DiffTotalView>, points: Seq<StoryPointView>) -> Seq<
    DiffTotalView,
> {
    Seq::new(entries.len(), |k: int| merged_total(entries[k], points))
}

/// Merging into a list of totals merges into the map that the list stands
/// for.
pub proof fn lemma_merged_entries(entries: Seq<DiffTotalView>, points: Seq<StoryPointView>)
    requires
        distinct_ids(entries),
    ensures
        distinct_ids(merged_entries(entries, points)),
        map_of(merged_entries(entries, points)) == merged(map_of(entries), points),
{
    let after = merged_entries(entries, points);
    assert forall|a: int, b: int| 0 <= a < b < after.len() implies (#[trigger] after[a]).story_number
        != (#[trigger] after[b]).story_number by {
        assert(entries[a].story_number != entries[b].story_number);
    }
    let target = merged(map_of(entries), points);
    assert forall|id: Seq<char>| map_of(after).contains_key(id) == target.contains_key(id) by {
        if map_of(after).contains_key(id) {
            lemma_map_of_key(after, id);
            let k = crate::collection::position_of(after, id);
            assert(entries[k].story_number == id);
        }
        if map_of(entries).contains_key(id) {
            lemma_map_of_key(entries, id);
            let k = crate::collection::position_of(entries, id);
            assert(after[k].story_number == id);
        }
    }
    assert forall|id: Seq<char>| map_of(after).contains_key(id) implies map_of(after)[id]
        == target[id] by {
        lemma_map_of_key(entries, id);
        let k = crate::collection::position_of(entries, id);
        lemma_map_of_entry(entries, k);
        assert(after[k].story_number == id);
        lemma_map_of_entry(after, k);
    }
    assert(map_of(after) =~= target);
}

impl DiffTotalCollection {
    /// Gives each total the points that were assigned to its story; where
    /// several assignments are for one story, the last one counts. A total
    /// whose story has no assignment stays as it is, and an assignment for a
    /// story without a total is passed over. Only points change.
    pub fn add_points(&mut self, points: &StoryPointCollection)
        ensures
            final(self).entries() == merged_entries(old(self).entries(), points@),
            final(self)@ == merged(old(self)@, points@),
    {
        let mut taken = DiffTotalCollection::new();
        std::mem::swap(self, &mut taken);
        let mut totals = taken.into_totals();
        let ghost before = entries_of(totals@);
        let ghost assignments = points@;
        assert(assignments.take(0) =~= Seq::empty());
        assert(entries_of(totals@) =~= merged_entries(before, assignments.take(0)));
        let mut i: usize = 0;
        while i < points.story_points.len()
            invariant
                i <= points.story_points.len(),
                assignments == points@,
                distinct_ids(before),
                entries_of(totals@) == merged_entries(before, assignments.take(i as int)),
            decreases points.story_points.len() - i,
        {
            let assignment = &points.story_points[i];
            let ghost sofar = assignments.take(i as int);
            let ghost next = assignments.take(i as int + 1);
            proof {
                assert(next.drop_last() =~= sofar);
                assert(next.last() == assignment@);
            }
            match find_total(&totals, &assignment.story_number) {
                Some(k) => {
                    let ghost prior = entries_of(totals@);
                    totals[k].points = assignment.points.clone();
                    proof {
                        assert(prior.len() == before.len());
                        assert(prior[k as int].story_number == before[k as int].story_number);
                        assert(entries_of(totals@) =~= prior.update(
                            k as int,
                            with_points(prior[k as int], Some(assignment@.points)),
                        ));
                        assert forall|j: int| 0 <= j < before.len() implies entries_of(totals@)[j]
                            == merged_total(before[j], next) by {
                            assert(prior[j] == merged_total(before[j], sofar));
                            if j != k {
                                if j < k {
                                    assert(before[j].story_number != before[k as int].story_number);
                                } else {
                                    assert(before[k as int].story_number != before[j].story_number);
                                }
                            }
                        }
                        assert(entries_of(totals@) =~= merged_entries(before, next));
                    }
                },
                None => {
                    proof {
                        assert forall|j: int| 0 <= j < before.len() implies entries_of(totals@)[j]
                            == merged_total(before[j], next) by {
                            assert(merged_entries(before, sofar)[j] == merged_total(before[j], sofar));
                            assert(entries_of(totals@)[j].story_number != assignment@.story_number);
                        }
                        assert(entries_of(totals@) =~= merged_entries(before, next));
                    }
                },
            }
            i += 1;
        }
        proof {
            assert(assignments.take(i as int) =~= assignments);
            lemma_merged_entries(before, assignments);
        }
        *self = DiffTotalCollection::from_distinct(totals);
    }
}

/// Merges the points into the totals, where points were given at all.
pub fn add_points(diff_total_collection: &mut DiffTotalCollection, points: &Option<StoryPointCollection>)
    ensures
        final(diff_total_collection)@ == match points {
            Some(points) => merged(old(diff_total_collection)@, points@),
            None => old(diff_total_collection)@,
        },
        final(diff_total_collection).entries() == match points {
            Some(points) => merged_entries(old(diff_total_collection).entries(), points@),
            None => old(diff_total_collection).entries(),
        },
{
    match points {
        Some(points) => diff_total_collection.add_points(points),
        None => {},
    }
}

/// Merging the same points a second time changes nothing.
pub proof fn lemma_merge_idempotent(totals: Map<Seq<char>, DiffTotalView>, points: Seq<StoryPointView>)
    ensures
        merged(merged(totals, points), points) == merged(totals, points),
{
    assert(merged(merged(totals, points), points) =~= merged(totals, points));
}

/// Merging points leaves every story with a total, adds none, and changes no
/// number of any total.
pub proof fn lemma_merge_keeps_metrics(
    totals: Map<Seq<char>, DiffTotalView>,
    points: Seq<StoryPointView>,
    id: Seq<char>,
)
    ensures
        merged(totals, points).contains_key(id) == totals.contains_key(id),
        totals.contains_key(id) ==> {
            &&& merged(totals, points)[id].story_number == totals[id].story_number
            &&& merged(totals, points)[id].files_changed == totals[id].files_changed
            &&& merged(totals, points)[id].insertions == totals[id].insertions
            &&& merged(totals, points)[id].deletions == totals[id].deletions
            &&& merged(totals, points)[id].total_diff_results == totals[id].total_diff_results
        },
{
}

/// A story gets points only from an assignment that names it: where no
/// assignment of the list is for a story, none are assigned to it, and its
/// total stays as it is.
pub proof fn lemma_unassigned_keeps_points(points: Seq<StoryPointView>, id: Seq<char>)
    requires
        forall|i: int| 0 <= i < points.len() ==> (#[trigger] points[i]).story_number != id,
    ensures
        assigned_points(points, id) is None,
    decreases points.len(),
{
    if points.len() > 0 {
        assert(points[points.len() - 1].story_number != id);
        assert forall|i: int| 0 <= i < points.drop_last().len() implies (
        #[trigger] points.drop_last()[i]).story_number != id by {
            assert(points.drop_last()[i] == points[i]);
        }
        lemma_unassigned_keeps_points(points.drop_last(), id);
    }
}

} // verus!
