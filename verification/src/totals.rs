//! Sums the changes of a history by the story that each change names.

use vstd::prelude::*;
use crate::collection::{
    distinct_ids, entries_of, find_total, lemma_map_of_entry, lemma_map_of_key,
    lemma_map_of_push, lemma_map_of_update, map_of, DiffTotalCollection,
};
use crate::diff::{
    orphan, unset_points, DiffCollection, DiffResult, DiffResultView, DiffTotal, DiffTotalView,
};
use crate::errors::InputError;

verus! {

/// The stories that a change counts for: those that it lists, or the orphan
/// if it lists none.
pub open spec fn buckets(record: DiffResultView) -> Seq<Seq<char>> {
    if record.story_number.len() == 0 {
        seq![orphan()]
    } else {
        record.story_number
    }
}

/// Whether a change counts for a story.
pub open spec fn names(record: DiffResultView, id: Seq<char>) -> bool {
    buckets(record).contains(id)
}

/// Whether any change of a history counts for a story.
pub open spec fn named_in(records: Seq<DiffResultView>, id: Seq<char>) -> bool {
    exists|i: int| 0 <= i < records.len() && names(#[trigger] records[i], id)
}

/// The total of a story for which nothing was counted yet.
pub open spec fn fresh_total(id: Seq<char>) -> DiffTotalView {
    DiffTotalView {
        story_number: id,
        points: unset_points(),
        files_changed: 0,
        insertions: 0,
        deletions: 0,
        total_diff_results: 0,
    }
}

/// A total after one more change was counted into it.
pub open spec fn plus(total: DiffTotalView, record: DiffResultView) -> DiffTotalView {
    DiffTotalView {
        story_number: total.story_number,
        points: total.points,
        files_changed: total.files_changed + record.files_changed,
        insertions: total.insertions + record.insertions,
        deletions: total.deletions + record.deletions,
        total_diff_results: total.total_diff_results + 1,
    }
}

/// The total of one story over a history: every change that counts for the
/// story adds its files, insertions and deletions, and counts as one.
pub open spec fn total_of(records: Seq<DiffResultView>, id: Seq<char>) -> DiffTotalView
    decreases records.len(),
{
    if records.len() == 0 {
        fresh_total(id)
    } else if names(records.last(), id) {
        plus(total_of(records.drop_last(), id), records.last())
    } else {
        total_of(records.drop_last(), id)
    }
}

/// The totals of a history: one for each story that some change counts for.
pub open spec fn totals_of(records: Seq<DiffResultView>) -> Map<Seq<char>, DiffTotalView> {
    Map::new(|id: Seq<char>| named_in(records, id), |id: Seq<char>| total_of(records, id))
}

/// Whether each number of a total can be held in a `usize`.
pub open spec fn fits(total: DiffTotalView) -> bool {
    &&& total.files_changed <= usize::MAX
    &&& total.insertions <= usize::MAX
    &&& total.deletions <= usize::MAX
    &&& total.total_diff_results <= usize::MAX
}

/// Whether every total of a history can be held.
pub open spec fn totals_fit(records: Seq<DiffResultView>) -> bool {
    forall|id: Seq<char>| #[trigger] named_in(records, id) ==> fits(total_of(records, id))
}

/// The words of the error that is given when a total cannot be held.
pub open spec fn overflow_text() -> Seq<char> {
    "a total is larger than this machine can count"@
}

/// Totals after a change was counted for the stories in `done`, and for no
/// others yet.
pub open spec fn partly_counted(
    before: Map<Seq<char>, DiffTotalView>,
    record: DiffResultView,
    done: Seq<Seq<char>>,
) -> Map<Seq<char>, DiffTotalView> {
    Map::new(
        |id: Seq<char>| before.contains_key(id) || done.contains(id),
        |id: Seq<char>|
            if done.contains(id) {
                plus(base_total(before, id), record)
            } else {
                before[id]
            },
    )
}

/// The total that a story has in a map, or the fresh total if it has none.
pub open spec fn base_total(totals: Map<Seq<char>, DiffTotalView>, id: Seq<char>) -> DiffTotalView {
    if totals.contains_key(id) {
        totals[id]
    } else {
        fresh_total(id)
    }
}

/// Totals after one more change was counted: each story that the change
/// counts for has the change added to its total, in full; every other total
/// is as it was.
pub open spec fn counted(before: Map<Seq<char>, DiffTotalView>, record: DiffResultView) -> Map<
    Seq<char>,
    DiffTotalView,
> {
    partly_counted(before, record, buckets(record))
}

/// A story that no change counts for has the fresh total.
pub proof fn lemma_total_of_unnamed(records: Seq<DiffResultView>, id: Seq<char>)
    requires
        !named_in(records, id),
    ensures
        total_of(records, id) == fresh_total(id),
    decreases records.len(),
{
    if records.len() > 0 {
        let earlier = records.drop_last();
        assert(!names(records[records.len() - 1], id));
        assert forall|i: int| 0 <= i < earlier.len() implies !names(#[trigger] earlier[i], id) by {
            assert(earlier[i] == records[i]);
        }
        lemma_total_of_unnamed(earlier, id);
    }
}

/// What one more change at the end of a history does to the total of a story.
pub proof fn lemma_total_of_push(records: Seq<DiffResultView>, record: DiffResultView, id: Seq<char>)
    ensures
        total_of(records.push(record), id) == if names(record, id) {
            plus(total_of(records, id), record)
        } else {
            total_of(records, id)
        },
        named_in(records.push(record), id) == (named_in(records, id) || names(record, id)),
{
    let longer = records.push(record);
    assert(longer.drop_last() =~= records);
    assert(longer.last() == record);
    if named_in(records, id) {
        let i = choose|i: int| 0 <= i < records.len() && names(#[trigger] records[i], id);
        assert(longer[i] == records[i]);
    }
    if names(record, id) {
        assert(longer[records.len() as int] == record);
    }
    if named_in(longer, id) {
        let i = choose|i: int| 0 <= i < longer.len() && names(#[trigger] longer[i], id);
        if i < records.len() {
            assert(records[i] == longer[i]);
        }
    }
}

/// Counting a history change by change gives its totals.
pub proof fn lemma_counted_totals(records: Seq<DiffResultView>, record: DiffResultView)
    ensures
        totals_of(records.push(record)) == counted(totals_of(records), record),
{
    let longer = records.push(record);
    let before = totals_of(records);
    assert forall|id: Seq<char>| #[trigger] totals_of(longer).contains_key(id) == counted(
        before,
        record,
    ).contains_key(id) by {
        lemma_total_of_push(records, record, id);
    }
    assert forall|id: Seq<char>| #[trigger] totals_of(longer).contains_key(id) implies totals_of(
        longer,
    )[id] == counted(before, record)[id] by {
        lemma_total_of_push(records, record, id);
        if !named_in(records, id) {
            lemma_total_of_unnamed(records, id);
        }
    }
    assert(totals_of(longer) =~= counted(before, record));
}

/// No number of a total ever shrinks as the history grows.
pub proof fn lemma_total_grows(records: Seq<DiffResultView>, k: int, id: Seq<char>)
    requires
        0 <= k <= records.len(),
    ensures
        total_of(records.take(k), id).files_changed <= total_of(records, id).files_changed,
        total_of(records.take(k), id).insertions <= total_of(records, id).insertions,
        total_of(records.take(k), id).deletions <= total_of(records, id).deletions,
        total_of(records.take(k), id).total_diff_results <= total_of(
            records,
            id,
        ).total_diff_results,
    decreases records.len(),
{
    if k == records.len() {
        assert(records.take(k) =~= records);
    } else {
        assert(records.drop_last().take(k) =~= records.take(k));
        lemma_total_grows(records.drop_last(), k, id);
    }
}

proof fn lemma_partly_counted_start(before: Map<Seq<char>, DiffTotalView>, record: DiffResultView)
    ensures
        partly_counted(before, record, Seq::empty()) == before,
{
    assert(partly_counted(before, record, Seq::empty()) =~= before);
}

proof fn lemma_partly_counted_step(
    before: Map<Seq<char>, DiffTotalView>,
    record: DiffResultView,
    done: Seq<Seq<char>>,
    id: Seq<char>,
)
    ensures
        done.contains(id) ==> partly_counted(before, record, done.push(id)) == partly_counted(
            before,
            record,
            done,
        ),
        !done.contains(id) ==> partly_counted(before, record, done.push(id)) == partly_counted(
            before,
            record,
            done,
        ).insert(id, plus(base_total(partly_counted(before, record, done), id), record)),
{
    let more = done.push(id);
    assert forall|other: Seq<char>| more.contains(other) == (done.contains(other) || other == id) by {
        if done.contains(other) {
            let i = choose|i: int| 0 <= i < done.len() && done[i] == other;
            assert(more[i] == other);
        }
        if other == id {
            assert(more[done.len() as int] == other);
        }
    }
    if done.contains(id) {
        assert(partly_counted(before, record, more) =~= partly_counted(before, record, done));
    } else {
        assert(partly_counted(before, record, more) =~= partly_counted(before, record, done).insert(
            id,
            plus(base_total(partly_counted(before, record, done), id), record),
        ));
    }
}

/// Adds a change to the total of one story, which is made if the list has
/// none for it. Gives `false`, and leaves the list as it is, if a number of
/// the total would grow beyond what can be held.
fn add_to_total(totals: &mut Vec<DiffTotal>, id: &String, record: &DiffResult) -> (ok: bool)
    requires
        distinct_ids(entries_of(old(totals)@)),
    ensures
        distinct_ids(entries_of(final(totals)@)),
        ok == fits(plus(base_total(map_of(entries_of(old(totals)@)), id@), record@)),
        ok ==> map_of(entries_of(final(totals)@)) == map_of(entries_of(old(totals)@)).insert(
            id@,
            plus(base_total(map_of(entries_of(old(totals)@)), id@), record@),
        ),
        !ok ==> final(totals)@ == old(totals)@,
{
    let ghost entries = entries_of(totals@);
    match find_total(totals, id) {
        Some(k) => {
            proof {
                lemma_map_of_entry(entries, k as int);
            }
            let files = totals[k].files_changed.checked_add(record.files_changed);
            let insertions = totals[k].insertions.checked_add(record.insertions);
            let deletions = totals[k].deletions.checked_add(record.deletions);
            let count = totals[k].total_diff_results.checked_add(1);
            match (files, insertions, deletions, count) {
                (Some(files), Some(insertions), Some(deletions), Some(count)) => {
                    totals[k].files_changed = files;
                    totals[k].insertions = insertions;
                    totals[k].deletions = deletions;
                    totals[k].total_diff_results = count;
                    proof {
                        let next = plus(entries[k as int], record@);
                        assert(entries_of(totals@) =~= entries.update(k as int, next));
                        lemma_map_of_update(entries, k as int, next);
                    }
                    true
                },
                _ => false,
            }
        },
        None => {
            let fresh = DiffTotal {
                story_number: id.clone(),
                points: "0".to_owned(),
                files_changed: record.files_changed,
                insertions: record.insertions,
                deletions: record.deletions,
                total_diff_results: 1,
            };
            proof {
                let next = plus(fresh_total(id@), record@);
                assert(fresh@ == next);
                assert(entries_of(totals@.push(fresh)) =~= entries.push(next));
                lemma_map_of_push(entries, next);
            }
            totals.push(fresh);
            true
        },
    }
}

/// Whether the entry at `j` of a list also stands before `j`.
fn listed_before(list: &Vec<String>, j: usize) -> (found: bool)
    requires
        j < list.len(),
    ensures
        found == list.deep_view().take(j as int).contains(list.deep_view()[j as int]),
{
    let ghost ids = list.deep_view();
    let mut i: usize = 0;
    while i < j
        invariant
            i <= j < list.len(),
            ids == list.deep_view(),
            forall|k: int| 0 <= k < i ==> ids[k] != ids[j as int],
        decreases j - i,
    {
        if list[i] == list[j] {
            assert(ids.take(j as int)[i as int] == ids[j as int]);
            return true;
        }
        i += 1;
    }
    assert forall|k: int| 0 <= k < ids.take(j as int).len() implies ids.take(j as int)[k] != ids[j as int] by {
        assert(ids.take(j as int)[k] == ids[k]);
    }
    false
}

/// Counts one change into a list of totals, for every story that the change
/// counts for. Gives `false` if a total would grow beyond what can be held.
fn count_record(totals: &mut Vec<DiffTotal>, record: &DiffResult) -> (ok: bool)
    requires
        distinct_ids(entries_of(old(totals)@)),
    ensures
        distinct_ids(entries_of(final(totals)@)),
        ok ==> map_of(entries_of(final(totals)@)) == counted(
            map_of(entries_of(old(totals)@)),
            record@,
        ),
        !ok ==> exists|id: Seq<char>|
            names(record@, id) && !fits(
                plus(base_total(map_of(entries_of(old(totals)@)), id), record@),
            ),
{
    let ghost before = map_of(entries_of(totals@));
    let ghost ids = record.story_number.deep_view();
    if record.story_number.len() == 0 {
        let id = "orphan".to_owned();
        proof {
            lemma_partly_counted_start(before, record@);
            lemma_partly_counted_step(before, record@, Seq::empty(), id@);
            assert(Seq::<Seq<char>>::empty().push(id@) =~= buckets(record@));
            assert(buckets(record@)[0] == id@);
        }
        let ok = add_to_total(totals, &id, record);
        proof {
            if !ok {
                assert(names(record@, id@));
                assert(!fits(plus(base_total(before, id@), record@)));
            }
        }
        return ok;
    }
    proof {
        lemma_partly_counted_start(before, record@);
        assert(ids.take(0) =~= Seq::empty());
    }
    let mut j: usize = 0;
    while j < record.story_number.len()
        invariant
            j <= record.story_number.len(),
            ids == record.story_number.deep_view(),
            ids == buckets(record@),
            before == map_of(entries_of(old(totals)@)),
            distinct_ids(entries_of(totals@)),
            map_of(entries_of(totals@)) == partly_counted(before, record@, ids.take(j as int)),
        decreases record.story_number.len() - j,
    {
        proof {
            lemma_partly_counted_step(before, record@, ids.take(j as int), ids[j as int]);
            assert(ids.take(j as int).push(ids[j as int]) =~= ids.take(j as int + 1));
        }
        if !listed_before(&record.story_number, j) {
            let ghost partly = map_of(entries_of(totals@));
            if !add_to_total(totals, &record.story_number[j], record) {
                proof {
                    let id = ids[j as int];
                    assert(names(record@, id));
                    assert(base_total(partly, id) == base_total(before, id));
                    assert(!fits(plus(base_total(before, id), record@)));
                }
                return false;
            }
        }
        j += 1;
    }
    assert(ids.take(j as int) =~= ids);
    true
}

/// The totals of a history: for every story that some change counts for, the
/// sum of the files, insertions and deletions of those changes, and their
/// number. A change that lists several stories counts in full for each of
/// them; one that lists none counts for the orphan.
///
/// Fails only where a total is larger than a `usize` can hold.
pub fn calculate_diff_totals(diff_collection: &DiffCollection) -> (result: Result<
    DiffTotalCollection,
    InputError,
>)
    ensures
        match result {
            Ok(totals) => totals_fit(diff_collection@) && totals@ == totals_of(diff_collection@),
            Err(error) => !totals_fit(diff_collection@) && error@ == overflow_text(),
        },
{
    let ghost records = diff_collection@;
    let mut totals: Vec<DiffTotal> = Vec::new();
    proof {
        assert(map_of(entries_of(totals@)) =~= totals_of(records.take(0)));
    }
    let mut i: usize = 0;
    while i < diff_collection.diffs.len()
        invariant
            i <= diff_collection.diffs.len(),
            records == diff_collection@,
            distinct_ids(entries_of(totals@)),
            map_of(entries_of(totals@)) == totals_of(records.take(i as int)),
        decreases diff_collection.diffs.len() - i,
    {
        let ghost earlier = records.take(i as int);
        proof {
            assert(earlier.push(records[i as int]) =~= records.take(i as int + 1));
            lemma_counted_totals(earlier, records[i as int]);
        }
        if !count_record(&mut totals, &diff_collection.diffs[i]) {
            proof {
                let record = records[i as int];
                let id = choose|id: Seq<char>|
                    names(record, id) && !fits(plus(base_total(totals_of(earlier), id), record));
                if !named_in(earlier, id) {
                    lemma_total_of_unnamed(earlier, id);
                }
                lemma_total_of_push(earlier, record, id);
                lemma_total_grows(records, i as int + 1, id);
                assert(named_in(records, id));
            }
            return Err(InputError::new("a total is larger than this machine can count"));
        }
        i += 1;
    }
    proof {
        assert(records.take(i as int) =~= records);
        let entries = entries_of(totals@);
        assert forall|id: Seq<char>| #[trigger] named_in(records, id) implies fits(
            total_of(records, id),
        ) by {
            assert(map_of(entries).contains_key(id));
            lemma_map_of_key(entries, id);
        }
    }
    Ok(DiffTotalCollection::from_distinct(totals))
}

/// Taking one change out of a history takes exactly that change out of the
/// total of each story that it counts for, wherever in the history it stood.
pub proof fn lemma_total_without(records: Seq<DiffResultView>, k: int, id: Seq<char>)
    requires
        0 <= k < records.len(),
    ensures
        total_of(records, id) == if names(records[k], id) {
            plus(total_of(records.remove(k), id), records[k])
        } else {
            total_of(records.remove(k), id)
        },
    decreases records.len(),
{
    if k == records.len() - 1 {
        assert(records.remove(k) =~= records.drop_last());
    } else {
        let shorter = records.remove(k);
        assert(shorter.drop_last() =~= records.drop_last().remove(k));
        assert(shorter.last() == records.last());
        assert(records.drop_last()[k] == records[k]);
        lemma_total_without(records.drop_last(), k, id);
    }
}

/// Two histories that hold the same changes give a story the same total, in
/// whatever order each of them holds the changes.
pub proof fn lemma_total_permutation(
    first: Seq<DiffResultView>,
    second: Seq<DiffResultView>,
    id: Seq<char>,
)
    requires
        first.to_multiset() == second.to_multiset(),
    ensures
        total_of(first, id) == total_of(second, id),
        named_in(first, id) == named_in(second, id),
    decreases first.len(),
{
    vstd::seq_lib::to_multiset_len(first);
    vstd::seq_lib::to_multiset_len(second);
    if first.len() > 0 {
        let last = first.last();
        let n = first.len() - 1;
        assert(first.remove(n) =~= first.drop_last());
        vstd::seq_lib::to_multiset_remove(first, n);
        vstd::seq_lib::to_multiset_contains(first, last);
        vstd::seq_lib::to_multiset_contains(second, last);
        assert(first[n] == last);
        assert(first.contains(last));
        let k = choose|k: int| 0 <= k < second.len() && second[k] == last;
        vstd::seq_lib::to_multiset_remove(second, k);
        lemma_total_permutation(first.drop_last(), second.remove(k), id);
        lemma_total_without(second, k, id);
        if named_in(first, id) {
            let i = choose|i: int| 0 <= i < first.len() && names(#[trigger] first[i], id);
            if i == n {
                assert(names(second[k], id));
            } else {
                assert(first.drop_last()[i] == first[i]);
                assert(named_in(second.remove(k), id));
                let j = choose|j: int|
                    0 <= j < second.remove(k).len() && names(#[trigger] second.remove(k)[j], id);
                if j < k {
                    assert(second[j] == second.remove(k)[j]);
                } else {
                    assert(second[j + 1] == second.remove(k)[j]);
                }
            }
        }
        if named_in(second, id) {
            let j = choose|j: int| 0 <= j < second.len() && names(#[trigger] second[j], id);
            if j == k {
                assert(names(first[n], id));
            } else {
                if j < k {
                    assert(second.remove(k)[j] == second[j]);
                } else {
                    assert(second.remove(k)[j - 1] == second[j]);
                }
                assert(named_in(first.drop_last(), id));
                let i = choose|i: int|
                    0 <= i < first.drop_last().len() && names(#[trigger] first.drop_last()[i], id);
                assert(first[i] == first.drop_last()[i]);
            }
        }
    }
}

/// The totals of a history do not depend on the order of its changes: two
/// histories that hold the same changes have the same totals, and either both
/// can be held or neither.
pub proof fn lemma_totals_permutation(first: Seq<DiffResultView>, second: Seq<DiffResultView>)
    requires
        first.to_multiset() == second.to_multiset(),
    ensures
        totals_of(first) == totals_of(second),
        totals_fit(first) == totals_fit(second),
{
    assert forall|id: Seq<char>|
        total_of(first, id) == total_of(second, id) && #[trigger] named_in(first, id) == named_in(
            second,
            id,
        ) by {
        lemma_total_permutation(first, second, id);
    }
    assert(totals_of(first) =~= totals_of(second));
    if totals_fit(first) {
        assert forall|id: Seq<char>| #[trigger] named_in(second, id) implies fits(
            total_of(second, id),
        ) by {
            assert(named_in(first, id));
        }
    }
    if totals_fit(second) {
        assert forall|id: Seq<char>| #[trigger] named_in(first, id) implies fits(
            total_of(first, id),
        ) by {
            assert(named_in(second, id));
        }
    }
}

/// The number of changes in the total of a story is the number of changes
/// of the history that count for the story.
pub proof fn lemma_total_counts_changes(records: Seq<DiffResultView>, id: Seq<char>)
    ensures
        total_of(records, id).total_diff_results == records.filter(
            |record: DiffResultView| names(record, id),
        ).len(),
    decreases records.len(),
{
    reveal(Seq::filter);
    if records.len() > 0 {
        lemma_total_counts_changes(records.drop_last(), id);
    }
}

/// Every total is filed under its own story number, and has no points until
/// points are merged in.
pub proof fn lemma_total_is_labelled(records: Seq<DiffResultView>, id: Seq<char>)
    ensures
        total_of(records, id).story_number == id,
        total_of(records, id).points == unset_points(),
    decreases records.len(),
{
    if records.len() > 0 {
        lemma_total_is_labelled(records.drop_last(), id);
    }
}

/// A change that counts for two stories adds all of its files, insertions and
/// deletions to the total of each of them, and counts as one change for each.
pub proof fn lemma_fan_out(
    records: Seq<DiffResultView>,
    record: DiffResultView,
    first: Seq<char>,
    second: Seq<char>,
)
    requires
        names(record, first),
        names(record, second),
    ensures
        total_of(records.push(record), first) == plus(total_of(records, first), record),
        total_of(records.push(record), second) == plus(total_of(records, second), record),
{
    lemma_total_of_push(records, record, first);
    lemma_total_of_push(records, record, second);
}

/// A change that lists no story counts once, for the orphan, and for no other
/// story.
pub proof fn lemma_orphan_counts_once(
    records: Seq<DiffResultView>,
    record: DiffResultView,
    id: Seq<char>,
)
    requires
        record.story_number.len() == 0,
    ensures
        total_of(records.push(record), orphan()) == plus(total_of(records, orphan()), record),
        id != orphan() ==> total_of(records.push(record), id) == total_of(records, id),
{
    assert(buckets(record)[0] == orphan());
    lemma_total_of_push(records, record, orphan());
    lemma_total_of_push(records, record, id);
}

} // verus!
