//! The totals of a history, kept so that no story has two of them.

use vstd::prelude::*;
use crate::diff::{DiffTotal, DiffTotalView};

verus! {

/// The views of a list of totals.
pub open spec fn entries_of(totals: Seq<DiffTotal>) -> Seq<DiffTotalView> {
    Seq::new(totals.len(), |i: int| totals[i]@)
}

/// Whether no two totals of a list are for the same story.
pub open spec fn distinct_ids(entries: Seq<DiffTotalView>) -> bool {
    forall|a: int, b: int|
        0 <= a < b < entries.len() ==> (#[trigger] entries[a]).story_number != (
        #[trigger] entries[b]).story_number
}

/// Whether a list holds a total for a story.
pub open spec fn has_id(entries: Seq<DiffTotalView>, id: Seq<char>) -> bool {
    exists|k: int| 0 <= k < entries.len() && (#[trigger] entries[k]).story_number == id
}

/// Where in a list the total of a story stands.
pub open spec fn position_of(entries: Seq<DiffTotalView>, id: Seq<char>) -> int {
    choose|k: int| 0 <= k < entries.len() && (#[trigger] entries[k]).story_number == id
}

/// A list of totals as a map from story number to total.
pub open spec fn map_of(entries: Seq<DiffTotalView>) -> Map<Seq<char>, DiffTotalView> {
    Map::new(
        |id: Seq<char>| has_id(entries, id),
        |id: Seq<char>| entries[position_of(entries, id)],
    )
}

/// In a list without repeated stories, the map gives each total under its
/// own story number.
pub proof fn lemma_map_of_entry(entries: Seq<DiffTotalView>, k: int)
    requires
        distinct_ids(entries),
        0 <= k < entries.len(),
    ensures
        map_of(entries).contains_key(entries[k].story_number),
        map_of(entries)[entries[k].story_number] == entries[k],
{
    let id = entries[k].story_number;
    assert(has_id(entries, id));
    let found = position_of(entries, id);
    assert(entries[found].story_number == id);
    if found < k {
        assert(entries[found].story_number != entries[k].story_number);
    } else if k < found {
        assert(entries[k].story_number != entries[found].story_number);
    }
}

/// Every key of the map is the story number of the total that it gives.
pub proof fn lemma_map_of_key(entries: Seq<DiffTotalView>, id: Seq<char>)
    requires
        map_of(entries).contains_key(id),
    ensures
        0 <= position_of(entries, id) < entries.len(),
        entries[position_of(entries, id)].story_number == id,
        map_of(entries)[id].story_number == id,
{
    assert(has_id(entries, id));
}

/// Adding a total for a story that has none adds it to the map.
pub proof fn lemma_map_of_push(entries: Seq<DiffTotalView>, entry: DiffTotalView)
    requires
        distinct_ids(entries),
        !has_id(entries, entry.story_number),
    ensures
        distinct_ids(entries.push(entry)),
        map_of(entries.push(entry)) == map_of(entries).insert(entry.story_number, entry),
{
    let longer = entries.push(entry);
    assert forall|a: int, b: int| 0 <= a < b < longer.len() implies (#[trigger] longer[a]).story_number
        != (#[trigger] longer[b]).story_number by {
        if b < entries.len() {
            assert(entries[a].story_number != entries[b].story_number);
        } else {
            assert(longer[a] == entries[a]);
        }
    }
    let target = map_of(entries).insert(entry.story_number, entry);
    assert forall|id: Seq<char>| map_of(longer).contains_key(id) == target.contains_key(id) by {
        if has_id(longer, id) {
            let k = position_of(longer, id);
            if k < entries.len() {
                assert(entries[k].story_number == id);
            }
        }
        if has_id(entries, id) {
            let k = position_of(entries, id);
            assert(longer[k].story_number == id);
        }
        if id == entry.story_number {
            assert(longer[entries.len() as int].story_number == id);
        }
    }
    assert forall|id: Seq<char>| map_of(longer).contains_key(id) implies map_of(longer)[id]
        == target[id] by {
        if id == entry.story_number {
            lemma_map_of_entry(longer, entries.len() as int);
        } else {
            let k = position_of(entries, id);
            assert(longer[k] == entries[k]);
            lemma_map_of_entry(longer, k);
        }
    }
    assert(map_of(longer) =~= target);
}

/// Replacing the total of a story replaces it in the map.
pub proof fn lemma_map_of_update(entries: Seq<DiffTotalView>, k: int, entry: DiffTotalView)
    requires
        distinct_ids(entries),
        0 <= k < entries.len(),
        entry.story_number == entries[k].story_number,
    ensures
        distinct_ids(entries.update(k, entry)),
        map_of(entries.update(k, entry)) == map_of(entries).insert(entry.story_number, entry),
{
    let changed = entries.update(k, entry);
    assert forall|a: int, b: int| 0 <= a < b < changed.len() implies (#[trigger] changed[a]).story_number
        != (#[trigger] changed[b]).story_number by {
        assert(entries[a].story_number != entries[b].story_number);
    }
    let target = map_of(entries).insert(entry.story_number, entry);
    assert forall|id: Seq<char>| map_of(changed).contains_key(id) == target.contains_key(id) by {
        if has_id(changed, id) {
            let at = position_of(changed, id);
            assert(entries[at].story_number == id);
        }
        if has_id(entries, id) {
            let at = position_of(entries, id);
            assert(changed[at].story_number == id);
        }
        if id == entry.story_number {
            assert(changed[k].story_number == id);
        }
    }
    assert forall|id: Seq<char>| map_of(changed).contains_key(id) implies map_of(changed)[id]
        == target[id] by {
        if id == entry.story_number {
            lemma_map_of_entry(changed, k);
        } else {
            let at = position_of(entries, id);
            assert(changed[at] == entries[at]);
            lemma_map_of_entry(changed, at);
            lemma_map_of_entry(entries, at);
        }
    }
    assert(map_of(changed) =~= target);
}

/// The totals of a history, one for each story, no story twice.
#[derive(Debug)]
pub struct DiffTotalCollection {
    totals: Vec<DiffTotal>,
}

impl View for DiffTotalCollection {
    type V = Map<Seq<char>, DiffTotalView>;

    open spec fn view(&self) -> Map<Seq<char>, DiffTotalView> {
        map_of(self.entries())
    }
}

impl DiffTotalCollection {
    #[verifier::type_invariant]
    spec fn no_story_twice(self) -> bool {
        distinct_ids(entries_of(self.totals@))
    }

    /// The totals as a list.
    pub closed spec fn entries(&self) -> Seq<DiffTotalView> {
        entries_of(self.totals@)
    }

    /// A collection without totals.
    pub fn new() -> (empty: DiffTotalCollection)
        ensures
            empty.entries() == Seq::<DiffTotalView>::empty(),
            empty@ == Map::<Seq<char>, DiffTotalView>::empty(),
    {
        let empty = DiffTotalCollection { totals: Vec::new() };
        assert(empty.entries() =~= Seq::<DiffTotalView>::empty());
        assert(empty@ =~= Map::<Seq<char>, DiffTotalView>::empty());
        empty
    }

    /// The collection of these totals, of which no two are for the same
    /// story.
    pub(crate) fn from_distinct(totals: Vec<DiffTotal>) -> (collection: DiffTotalCollection)
        requires
            distinct_ids(entries_of(totals@)),
        ensures
            collection.entries() == entries_of(totals@),
    {
        DiffTotalCollection { totals }
    }

    /// The collection of these totals, unless two of them are for the same
    /// story.
    pub fn from_totals(totals: Vec<DiffTotal>) -> (collection: Option<DiffTotalCollection>)
        ensures
            collection is Some == distinct_ids(entries_of(totals@)),
            collection is Some ==> collection->0.entries() == entries_of(totals@),
    {
        let ghost entries = entries_of(totals@);
        let mut b: usize = 0;
        while b < totals.len()
            invariant
                b <= totals.len(),
                entries == entries_of(totals@),
                forall|i: int, j: int|
                    0 <= i < j < b ==> (#[trigger] entries[i]).story_number != (
                    #[trigger] entries[j]).story_number,
            decreases totals.len() - b,
        {
            let mut a: usize = 0;
            while a < b
                invariant
                    a <= b < totals.len(),
                    entries == entries_of(totals@),
                    forall|i: int|
                        0 <= i < a ==> (#[trigger] entries[i]).story_number != entries[b as int].story_number,
                decreases b - a,
            {
                if totals[a].story_number == totals[b].story_number {
                    assert(entries[a as int].story_number == entries[b as int].story_number);
                    return None;
                }
                a += 1;
            }
            b += 1;
        }
        Some(DiffTotalCollection { totals })
    }

    /// Gives the totals up.
    pub(crate) fn into_totals(self) -> (totals: Vec<DiffTotal>)
        ensures
            entries_of(totals@) == self.entries(),
            distinct_ids(entries_of(totals@)),
    {
        proof {
            use_type_invariant(&self);
        }
        self.totals
    }

    /// The totals as a list: one for each story, no story twice.
    pub fn totals(&self) -> (totals: &Vec<DiffTotal>)
        ensures
            entries_of(totals@) == self.entries(),
            distinct_ids(self.entries()),
    {
        proof {
            use_type_invariant(self);
        }
        &self.totals
    }

    /// The number of stories that have a total.
    pub fn len(&self) -> (n: usize)
        ensures
            n == self.entries().len(),
    {
        self.totals.len()
    }

    /// The total of a story, if it has one.
    pub fn get(&self, id: &String) -> (found: Option<&DiffTotal>)
        ensures
            match found {
                Some(total) => self@.contains_key(id@) && total@ == self@[id@],
                None => !self@.contains_key(id@),
            },
    {
        proof {
            use_type_invariant(self);
        }
        match find_total(&self.totals, id) {
            Some(k) => {
                proof {
                    lemma_map_of_entry(entries_of(self.totals@), k as int);
                }
                Some(&self.totals[k])
            },
            None => None,
        }
    }
}

/// Where the total of a story stands in a list, if the list holds one.
pub(crate) fn find_total(totals: &Vec<DiffTotal>, id: &String) -> (found: Option<usize>)
    ensures
        match found {
            Some(k) => k < totals.len() && totals[k as int].story_number@ == id@,
            None => !has_id(entries_of(totals@), id@),
        },
{
    let mut k: usize = 0;
    while k < totals.len()
        invariant
            k <= totals.len(),
            forall|j: int| 0 <= j < k ==> (#[trigger] entries_of(totals@)[j]).story_number != id@,
        decreases totals.len() - k,
    {
        if totals[k].story_number == *id {
            return Some(k);
        }
        k += 1;
    }
    None
}

} // verus!
