use story_diff::collection::DiffTotalCollection;
use story_diff::diff::{DiffCollection, DiffResult, DiffTotal, StoryPoint, StoryPointCollection};
use story_diff::points::add_points;
use story_diff::totals::calculate_diff_totals;

fn record(ids: &[&str], files_changed: usize, insertions: usize, deletions: usize) -> DiffResult {
    DiffResult {
        story_number: ids.iter().map(|id| id.to_string()).collect(),
        points: "0".to_string(),
        first_summary: "older".to_string(),
        second_summary: "newer".to_string(),
        files_changed,
        insertions,
        deletions,
    }
}

fn collection(diffs: Vec<DiffResult>) -> DiffCollection {
    DiffCollection { diffs }
}

fn total(story_number: &str, points: &str, numbers: (usize, usize, usize, usize)) -> DiffTotal {
    DiffTotal {
        story_number: story_number.to_string(),
        points: points.to_string(),
        files_changed: numbers.0,
        insertions: numbers.1,
        deletions: numbers.2,
        total_diff_results: numbers.3,
    }
}

fn numbers(totals: &DiffTotalCollection, id: &str) -> Option<(usize, usize, usize, usize)> {
    totals.get(&id.to_string()).map(|total| {
        (total.files_changed, total.insertions, total.deletions, total.total_diff_results)
    })
}

fn points_of(totals: &DiffTotalCollection, id: &str) -> Option<String> {
    totals.get(&id.to_string()).map(|total| total.points.clone())
}

fn assignments(items: &[(&str, &str)]) -> StoryPointCollection {
    StoryPointCollection {
        story_points: items
            .iter()
            .map(|(story_number, points)| StoryPoint {
                story_number: story_number.to_string(),
                points: points.to_string(),
            })
            .collect(),
    }
}

#[test]
fn two_records_for_one_story_add_up() {
    let diffs = collection(vec![record(&["S-10345"], 2, 10, 3), record(&["S-10345"], 1, 5, 1)]);
    let totals = calculate_diff_totals(&diffs).unwrap();
    assert_eq!(totals.len(), 1);
    let total = totals.get(&"S-10345".to_string()).unwrap();
    assert_eq!(total.story_number, "S-10345");
    assert_eq!(total.points, "0");
    assert_eq!(total.files_changed, 3);
    assert_eq!(total.insertions, 15);
    assert_eq!(total.deletions, 4);
    assert_eq!(total.total_diff_results, 2);
}

#[test]
fn fields_are_not_transposed() {
    let diffs = collection(vec![record(&["S-1"], 1, 20, 300), record(&["S-1"], 4000, 50000, 600000)]);
    let totals = calculate_diff_totals(&diffs).unwrap();
    assert_eq!(numbers(&totals, "S-1"), Some((4001, 50020, 600300, 2)));
}

#[test]
fn a_record_with_two_stories_counts_in_full_for_both() {
    let diffs = collection(vec![
        record(&["S-10345", "D-20000"], 4, 40, 7),
        record(&["D-20000"], 1, 2, 3),
    ]);
    let totals = calculate_diff_totals(&diffs).unwrap();
    assert_eq!(totals.len(), 2);
    assert_eq!(numbers(&totals, "S-10345"), Some((4, 40, 7, 1)));
    assert_eq!(numbers(&totals, "D-20000"), Some((5, 42, 10, 2)));
}

#[test]
fn a_record_without_a_story_counts_for_the_orphan() {
    let diffs = collection(vec![
        record(&[], 2, 3, 4),
        record(&["S-10345"], 1, 1, 1),
        record(&[], 10, 20, 30),
    ]);
    let totals = calculate_diff_totals(&diffs).unwrap();
    assert_eq!(totals.len(), 2);
    assert_eq!(numbers(&totals, "orphan"), Some((12, 23, 34, 2)));
    assert_eq!(numbers(&totals, "S-10345"), Some((1, 1, 1, 1)));
    assert_eq!(totals.get(&"orphan".to_string()).unwrap().story_number, "orphan");
}

#[test]
fn a_record_that_lists_the_orphan_counts_with_the_rest() {
    let diffs = collection(vec![record(&["orphan"], 1, 2, 3), record(&[], 1, 2, 3)]);
    let totals = calculate_diff_totals(&diffs).unwrap();
    assert_eq!(totals.len(), 1);
    assert_eq!(numbers(&totals, "orphan"), Some((2, 4, 6, 2)));
}

#[test]
fn a_story_listed_twice_in_one_record_counts_once() {
    let diffs = collection(vec![record(&["S-1", "S-1", "D-2", "S-1"], 3, 5, 7)]);
    let totals = calculate_diff_totals(&diffs).unwrap();
    assert_eq!(totals.len(), 2);
    assert_eq!(numbers(&totals, "S-1"), Some((3, 5, 7, 1)));
    assert_eq!(numbers(&totals, "D-2"), Some((3, 5, 7, 1)));
}

#[test]
fn the_count_is_the_number_of_records_that_list_the_story() {
    let diffs = collection(vec![
        record(&["A-1"], 1, 0, 0),
        record(&["B-2"], 1, 0, 0),
        record(&["A-1", "B-2"], 1, 0, 0),
        record(&[], 1, 0, 0),
        record(&["A-1"], 1, 0, 0),
    ]);
    let totals = calculate_diff_totals(&diffs).unwrap();
    assert_eq!(numbers(&totals, "A-1"), Some((3, 0, 0, 3)));
    assert_eq!(numbers(&totals, "B-2"), Some((2, 0, 0, 2)));
    assert_eq!(numbers(&totals, "orphan"), Some((1, 0, 0, 1)));
    assert_eq!(numbers(&totals, "C-3"), None);
}

#[test]
fn totals_do_not_depend_on_the_order_of_the_records() {
    let forward = collection(vec![
        record(&["A-1"], 1, 2, 3),
        record(&["B-2", "A-1"], 10, 20, 30),
        record(&[], 100, 200, 300),
        record(&["B-2"], 1000, 2000, 3000),
    ]);
    let backward = collection(vec![
        record(&["B-2"], 1000, 2000, 3000),
        record(&[], 100, 200, 300),
        record(&["B-2", "A-1"], 10, 20, 30),
        record(&["A-1"], 1, 2, 3),
    ]);
    let one = calculate_diff_totals(&forward).unwrap();
    let other = calculate_diff_totals(&backward).unwrap();
    assert_eq!(one.len(), 3);
    assert_eq!(other.len(), 3);
    for id in ["A-1", "B-2", "orphan"] {
        assert_eq!(numbers(&one, id), numbers(&other, id));
    }
    assert_eq!(numbers(&one, "A-1"), Some((11, 22, 33, 2)));
    assert_eq!(numbers(&one, "B-2"), Some((1010, 2020, 3030, 2)));
    assert_eq!(numbers(&one, "orphan"), Some((100, 200, 300, 1)));
}

#[test]
fn no_records_give_no_totals() {
    let totals = calculate_diff_totals(&collection(Vec::new())).unwrap();
    assert_eq!(totals.len(), 0);
    assert!(totals.totals().is_empty());
    assert!(totals.get(&"orphan".to_string()).is_none());
}

#[test]
fn a_total_that_cannot_be_held_is_an_error() {
    let diffs = collection(vec![record(&["S-1"], usize::MAX, 0, 0), record(&["S-1"], 1, 0, 0)]);
    let error = calculate_diff_totals(&diffs).unwrap_err();
    assert_eq!(error.description(), "a total is larger than this machine can count");
    let diffs = collection(vec![record(&["S-1"], 0, usize::MAX, 0), record(&["S-1"], 0, 1, 0)]);
    assert!(calculate_diff_totals(&diffs).is_err());
    let diffs = collection(vec![record(&[], 0, 0, 1), record(&[], 0, 0, usize::MAX)]);
    assert!(calculate_diff_totals(&diffs).is_err());
}

#[test]
fn the_largest_total_that_can_be_held_is_no_error() {
    let diffs = collection(vec![
        record(&["S-1"], usize::MAX - 1, usize::MAX, 0),
        record(&["S-1"], 1, 0, usize::MAX),
        record(&["S-2"], usize::MAX, 1, 1),
    ]);
    let totals = calculate_diff_totals(&diffs).unwrap();
    assert_eq!(numbers(&totals, "S-1"), Some((usize::MAX, usize::MAX, usize::MAX, 2)));
    assert_eq!(numbers(&totals, "S-2"), Some((usize::MAX, 1, 1, 1)));
}

#[test]
fn merging_points_sets_only_the_story_that_is_named() {
    let diffs = collection(vec![record(&["S-10345"], 2, 10, 3), record(&["D-20000"], 1, 5, 1)]);
    let mut totals = calculate_diff_totals(&diffs).unwrap();
    totals.add_points(&assignments(&[("S-10345", "5")]));
    assert_eq!(points_of(&totals, "S-10345"), Some("5".to_string()));
    assert_eq!(points_of(&totals, "D-20000"), Some("0".to_string()));
    assert_eq!(numbers(&totals, "S-10345"), Some((2, 10, 3, 1)));
    assert_eq!(numbers(&totals, "D-20000"), Some((1, 5, 1, 1)));
    assert_eq!(totals.len(), 2);
}

#[test]
fn merging_the_same_points_twice_is_merging_them_once() {
    let diffs = collection(vec![
        record(&["S-10345"], 2, 10, 3),
        record(&["D-20000"], 1, 5, 1),
        record(&[], 1, 1, 1),
    ]);
    let points = assignments(&[("S-10345", "5"), ("X-1", "8"), ("D-20000", "3"), ("S-10345", "13")]);
    let mut once = calculate_diff_totals(&diffs).unwrap();
    once.add_points(&points);
    let mut twice = calculate_diff_totals(&diffs).unwrap();
    twice.add_points(&points);
    twice.add_points(&points);
    assert_eq!(once.len(), twice.len());
    for id in ["S-10345", "D-20000", "orphan", "X-1"] {
        assert_eq!(points_of(&once, id), points_of(&twice, id));
        assert_eq!(numbers(&once, id), numbers(&twice, id));
    }
    assert_eq!(points_of(&once, "S-10345"), Some("13".to_string()));
    assert_eq!(points_of(&once, "D-20000"), Some("3".to_string()));
    assert_eq!(points_of(&once, "orphan"), Some("0".to_string()));
    assert_eq!(points_of(&once, "X-1"), None);
}

#[test]
fn points_for_a_story_without_a_total_are_passed_over() {
    let diffs = collection(vec![record(&["S-10345"], 2, 10, 3)]);
    let mut totals = calculate_diff_totals(&diffs).unwrap();
    totals.add_points(&assignments(&[("D-20000", "8")]));
    assert_eq!(totals.len(), 1);
    assert!(totals.get(&"D-20000".to_string()).is_none());
    assert_eq!(points_of(&totals, "S-10345"), Some("0".to_string()));
}

#[test]
fn later_points_overwrite_earlier_ones() {
    let mut totals = DiffTotalCollection::from_totals(vec![
        total("S-10345", "2", (1, 1, 1, 1)),
        total("D-20000", "3", (2, 2, 2, 2)),
    ])
    .unwrap();
    totals.add_points(&assignments(&[("S-10345", "5")]));
    assert_eq!(points_of(&totals, "S-10345"), Some("5".to_string()));
    assert_eq!(points_of(&totals, "D-20000"), Some("3".to_string()));
    totals.add_points(&assignments(&[("S-10345", "8"), ("S-10345", "1")]));
    assert_eq!(points_of(&totals, "S-10345"), Some("1".to_string()));
    totals.add_points(&assignments(&[]));
    assert_eq!(points_of(&totals, "S-10345"), Some("1".to_string()));
    assert_eq!(numbers(&totals, "S-10345"), Some((1, 1, 1, 1)));
    assert_eq!(numbers(&totals, "D-20000"), Some((2, 2, 2, 2)));
}

#[test]
fn points_are_merged_only_where_they_are_given() {
    let diffs = collection(vec![record(&["S-10345"], 2, 10, 3)]);
    let mut totals = calculate_diff_totals(&diffs).unwrap();
    add_points(&mut totals, &None);
    assert_eq!(points_of(&totals, "S-10345"), Some("0".to_string()));
    add_points(&mut totals, &Some(assignments(&[("S-10345", "5")])));
    assert_eq!(points_of(&totals, "S-10345"), Some("5".to_string()));
    add_points(&mut totals, &None);
    assert_eq!(points_of(&totals, "S-10345"), Some("5".to_string()));
    assert_eq!(numbers(&totals, "S-10345"), Some((2, 10, 3, 1)));
}

#[test]
fn a_collection_holds_no_story_twice() {
    assert!(DiffTotalCollection::from_totals(vec![
        total("S-1", "0", (1, 1, 1, 1)),
        total("S-2", "0", (1, 1, 1, 1)),
        total("S-1", "0", (2, 2, 2, 2)),
    ])
    .is_none());
    let kept = DiffTotalCollection::from_totals(vec![
        total("S-1", "0", (1, 1, 1, 1)),
        total("S-2", "0", (1, 1, 1, 1)),
    ])
    .unwrap();
    assert_eq!(kept.len(), 2);
    assert_eq!(numbers(&kept, "S-2"), Some((1, 1, 1, 1)));
    let empty = DiffTotalCollection::from_totals(Vec::new()).unwrap();
    assert_eq!(empty.len(), 0);
    assert_eq!(DiffTotalCollection::new().len(), 0);
}
