//! The records that the stages of the pipeline hand to one another, and the
//! mathematical value that each of them stands for.

use vstd::prelude::*;

verus! {

/// The points of a record or total to which no points were assigned.
pub open spec fn unset_points() -> Seq<char> {
    "0"@
}

/// The story number under which a change counts that names no story.
pub open spec fn orphan() -> Seq<char> {
    "orphan"@
}

/// What a `DiffResult` stands for.
pub ghost struct DiffResultView {
    pub story_number: Seq<Seq<char>>,
    pub points: Seq<char>,
    pub first_summary: Seq<char>,
    pub second_summary: Seq<char>,
    pub files_changed: nat,
    pub insertions: nat,
    pub deletions: nat,
}

/// The change between one commit and the next: the story numbers that the
/// newer commit names, the summaries of both commits, and the size of the
/// change.
#[derive(Debug)]
pub struct DiffResult {
    pub story_number: Vec<String>,
    pub points: String,
    pub first_summary: String,
    pub second_summary: String,
    pub files_changed: usize,
    pub insertions: usize,
    pub deletions: usize,
}

impl View for DiffResult {
    type V = DiffResultView;

    open spec fn view(&self) -> DiffResultView {
        DiffResultView {
            story_number: self.story_number.deep_view(),
            points: self.points@,
            first_summary: self.first_summary@,
            second_summary: self.second_summary@,
            files_changed: self.files_changed as nat,
            insertions: self.insertions as nat,
            deletions: self.deletions as nat,
        }
    }
}

/// What a list of changes stands for.
pub open spec fn diff_views(diffs: Seq<DiffResult>) -> Seq<DiffResultView> {
    Seq::new(diffs.len(), |i: int| diffs[i]@)
}

/// The changes of one walk through a branch's history, newest first.
#[derive(Debug)]
pub struct DiffCollection {
    pub diffs: Vec<DiffResult>,
}

impl View for DiffCollection {
    type V = Seq<DiffResultView>;

    open spec fn view(&self) -> Seq<DiffResultView> {
        diff_views(self.diffs@)
    }
}

/// What a `StoryPoint` stands for.
pub ghost struct StoryPointView {
    pub story_number: Seq<char>,
    pub points: Seq<char>,
}

/// The points that were assigned to one story.
#[derive(Debug)]
pub struct StoryPoint {
    pub story_number: String,
    pub points: String,
}

impl View for StoryPoint {
    type V = StoryPointView;

    open spec fn view(&self) -> StoryPointView {
        StoryPointView { story_number: self.story_number@, points: self.points@ }
    }
}

/// Point assignments in the order in which they were given.
#[derive(Debug)]
pub struct StoryPointCollection {
    pub story_points: Vec<StoryPoint>,
}

impl View for StoryPointCollection {
    type V = Seq<StoryPointView>;

    open spec fn view(&self) -> Seq<StoryPointView> {
        Seq::new(self.story_points.len() as nat, |i: int| self.story_points[i]@)
    }
}

/// What a `DiffTotal` stands for.
pub ghost struct DiffTotalView {
    pub story_number: Seq<char>,
    pub points: Seq<char>,
    pub files_changed: nat,
    pub insertions: nat,
    pub deletions: nat,
    pub total_diff_results: nat,
}

/// The sum of the changes that name one story.
#[derive(Debug)]
pub struct DiffTotal {
    pub story_number: String,
    pub points: String,
    pub files_changed: usize,
    pub insertions: usize,
    pub deletions: usize,
    pub total_diff_results: usize,
}

impl View for DiffTotal {
    type V = DiffTotalView;

    open spec fn view(&self) -> DiffTotalView {
        DiffTotalView {
            story_number: self.story_number@,
            points: self.points@,
            files_changed: self.files_changed as nat,
            insertions: self.insertions as nat,
            deletions: self.deletions as nat,
            total_diff_results: self.total_diff_results as nat,
        }
    }
}

} // verus!
