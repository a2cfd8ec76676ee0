//! The records as lines of text for a reader.

use vstd::prelude::*;
use crate::collection::{entries_of, DiffTotalCollection};
use crate::diff::{
    DiffCollection, DiffResult, DiffResultView, DiffTotal, DiffTotalView, StoryPoint,
    StoryPointCollection, StoryPointView,
};
use crate::text::{decimal_text, joined_text, push_decimal, push_joined};

verus! {

/// The size of a change in words: the number of files, and the insertions
/// and deletions with their sum.
pub open spec fn size_text(files_changed: nat, insertions: nat, deletions: nat) -> Seq<char> {
    " :: ("@ + decimal_text(files_changed) + " files, ∑("@ + decimal_text(insertions) + ",|-"@
        + decimal_text(deletions) + "|) = "@ + decimal_text(insertions + deletions) + ")"@
}

/// A change as one line: its stories, its points, its size and the two
/// summaries.
pub open spec fn diff_result_text(diff: DiffResultView) -> Seq<char> {
    joined_text(diff.story_number, ", "@) + " ("@ + diff.points + ")"@ + size_text(
        diff.files_changed,
        diff.insertions,
        diff.deletions,
    ) + " :: "@ + diff.first_summary + " -> "@ + diff.second_summary
}

/// A total as one line: its story, its points, its size and the number of
/// changes that were counted.
pub open spec fn diff_total_text(total: DiffTotalView) -> Seq<char> {
    total.story_number + " ("@ + total.points + ")"@ + size_text(
        total.files_changed,
        total.insertions,
        total.deletions,
    ) + " in "@ + decimal_text(total.total_diff_results) + " commits"@
}

/// An assignment of points as one line, with its line end.
pub open spec fn story_point_text(point: StoryPointView) -> Seq<char> {
    point.story_number + " => "@ + point.points + "sp\n"@
}

/// Texts one after another, each followed by a line end.
pub open spec fn lines_text(lines: Seq<Seq<char>>) -> Seq<char>
    decreases lines.len(),
{
    if lines.len() == 0 {
        Seq::empty()
    } else {
        lines_text(lines.drop_last()) + lines.last() + "\n"@
    }
}

/// Appends the size of a change to a text.
fn push_size(text: &mut String, files_changed: usize, insertions: usize, deletions: usize)
    ensures
        final(text)@ == old(text)@ + size_text(
            files_changed as nat,
            insertions as nat,
            deletions as nat,
        ),
{
    text.append(" :: (");
    push_decimal(text, files_changed as u128);
    text.append(" files, ∑(");
    push_decimal(text, insertions as u128);
    text.append(",|-");
    push_decimal(text, deletions as u128);
    text.append("|) = ");
    push_decimal(text, insertions as u128 + deletions as u128);
    text.append(")");
    assert(final(text)@ =~= old(text)@ + size_text(
        files_changed as nat,
        insertions as nat,
        deletions as nat,
    ));
}

impl DiffResult {
    /// The change as one line of text.
    pub fn to_text(&self) -> (text: String)
        ensures
            text@ == diff_result_text(self@),
    {
        let mut text = String::new();
        push_joined(&mut text, &self.story_number, ", ");
        text.append(" (");
        text.append(self.points.as_str());
        text.append(")");
        push_size(&mut text, self.files_changed, self.insertions, self.deletions);
        text.append(" :: ");
        text.append(self.first_summary.as_str());
        text.append(" -> ");
        text.append(self.second_summary.as_str());
        assert(text@ =~= diff_result_text(self@));
        text
    }
}

impl DiffTotal {
    /// The total as one line of text.
    pub fn to_text(&self) -> (text: String)
        ensures
            text@ == diff_total_text(self@),
    {
        let mut text = String::new();
        text.append(self.story_number.as_str());
        text.append(" (");
        text.append(self.points.as_str());
        text.append(")");
        push_size(&mut text, self.files_changed, self.insertions, self.deletions);
        text.append(" in ");
        push_decimal(&mut text, self.total_diff_results as u128);
        text.append(" commits");
        assert(text@ =~= diff_total_text(self@));
        text
    }
}

impl StoryPoint {
    /// The assignment as one line of text, with its line end.
    pub fn to_text(&self) -> (text: String)
        ensures
            text@ == story_point_text(self@),
    {
        let mut text = String::new();
        text.append(self.story_number.as_str());
        text.append(" => ");
        text.append(self.points.as_str());
        text.append("sp\n");
        assert(text@ =~= story_point_text(self@));
        text
    }
}

impl DiffCollection {
    /// The changes as text, one line for each.
    pub fn to_text(&self) -> (text: String)
        ensures
            text@ == lines_text(self@.map_values(|diff: DiffResultView| diff_result_text(diff))),
    {
        let ghost lines = self@.map_values(|diff: DiffResultView| diff_result_text(diff));
        let mut text = String::new();
        let mut i: usize = 0;
        assert(lines.take(0) =~= Seq::empty());
        while i < self.diffs.len()
            invariant
                i <= self.diffs.len(),
                lines == self@.map_values(|diff: DiffResultView| diff_result_text(diff)),
                text@ == lines_text(lines.take(i as int)),
            decreases self.diffs.len() - i,
        {
            proof {
                let upto = lines.take(i as int + 1);
                assert(upto.drop_last() =~= lines.take(i as int));
                assert(upto.last() == diff_result_text(self.diffs[i as int]@));
            }
            let line = self.diffs[i].to_text();
            text.append(line.as_str());
            text.append("\n");
            i += 1;
        }
        assert(lines.take(i as int) =~= lines);
        text
    }
}

impl StoryPointCollection {
    /// The assignments as text, one line for each and an empty line after
    /// each.
    pub fn to_text(&self) -> (text: String)
        ensures
            text@ == lines_text(self@.map_values(|point: StoryPointView| story_point_text(point))),
    {
        let ghost lines = self@.map_values(|point: StoryPointView| story_point_text(point));
        let mut text = String::new();
        let mut i: usize = 0;
        assert(lines.take(0) =~= Seq::empty());
        while i < self.story_points.len()
            invariant
                i <= self.story_points.len(),
                lines == self@.map_values(|point: StoryPointView| story_point_text(point)),
                text@ == lines_text(lines.take(i as int)),
            decreases self.story_points.len() - i,
        {
            proof {
                let upto = lines.take(i as int + 1);
                assert(upto.drop_last() =~= lines.take(i as int));
                assert(upto.last() == story_point_text(self.story_points[i as int]@));
            }
            let line = self.story_points[i].to_text();
            text.append(line.as_str());
            text.append("\n");
            i += 1;
        }
        assert(lines.take(i as int) =~= lines);
        text
    }
}

impl DiffTotalCollection {
    /// The totals as text, one line for each.
    pub fn to_text(&self) -> (text: String)
        ensures
            text@ == lines_text(
                self.entries().map_values(|total: DiffTotalView| diff_total_text(total)),
            ),
    {
        let totals = self.totals();
        let ghost lines = self.entries().map_values(|total: DiffTotalView| diff_total_text(total));
        let mut text = String::new();
        let mut i: usize = 0;
        assert(lines.take(0) =~= Seq::empty());
        while i < totals.len()
            invariant
                i <= totals.len(),
                entries_of(totals@) == self.entries(),
                lines == self.entries().map_values(|total: DiffTotalView| diff_total_text(total)),
                text@ == lines_text(lines.take(i as int)),
            decreases totals.len() - i,
        {
            proof {
                let upto = lines.take(i as int + 1);
                assert(upto.drop_last() =~= lines.take(i as int));
                assert(entries_of(totals@)[i as int] == totals[i as int]@);
                assert(upto.last() == diff_total_text(totals[i as int]@));
            }
            let line = totals[i].to_text();
            text.append(line.as_str());
            text.append("\n");
            i += 1;
        }
        assert(lines.take(i as int) =~= lines);
        text
    }
}

} // verus!
