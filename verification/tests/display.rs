use story_diff::collection::DiffTotalCollection;
use story_diff::diff::{DiffCollection, DiffResult, DiffTotal, StoryPoint, StoryPointCollection};
use story_diff::text::{push_decimal, push_joined};

fn record(ids: &[&str], first: &str, second: &str, numbers: (usize, usize, usize)) -> DiffResult {
    DiffResult {
        story_number: ids.iter().map(|id| id.to_string()).collect(),
        points: "0".to_string(),
        first_summary: first.to_string(),
        second_summary: second.to_string(),
        files_changed: numbers.0,
        insertions: numbers.1,
        deletions: numbers.2,
    }
}

fn total(story_number: &str, points: &str, numbers: (usize, usize, usize, usize)) -> DiffTotal {
    DiffTotal {
        story_number: story_number.to_string(),
        points: points.to_string(),
        files_changed: numbers.0,
        insertions: numbers.1,
        deletions: numbers.2,
        total_diff_results: numbers.3,
    }
}

fn decimal(n: u128) -> String {
    let mut text = String::new();
    push_decimal(&mut text, n);
    text
}

#[test]
fn numbers_in_decimal() {
    assert_eq!(decimal(0), "0");
    assert_eq!(decimal(7), "7");
    assert_eq!(decimal(9), "9");
    assert_eq!(decimal(10), "10");
    assert_eq!(decimal(99), "99");
    assert_eq!(decimal(100), "100");
    assert_eq!(decimal(1234567890), "1234567890");
    assert_eq!(decimal(u64::MAX as u128), "18446744073709551615");
    assert_eq!(decimal(u128::MAX), "340282366920938463463374607431768211455");
    let mut text = "n = ".to_string();
    push_decimal(&mut text, 42);
    assert_eq!(text, "n = 42");
}

#[test]
fn texts_joined_with_a_separator() {
    let items = vec!["a".to_string(), "bc".to_string(), "".to_string(), "d".to_string()];
    let mut text = "[".to_string();
    push_joined(&mut text, &items, ", ");
    assert_eq!(text, "[a, bc, , d");
    let mut text = String::new();
    push_joined(&mut text, &Vec::new(), ", ");
    assert_eq!(text, "");
    push_joined(&mut text, &vec!["only".to_string()], ", ");
    assert_eq!(text, "only");
}

#[test]
fn a_change_as_text() {
    let diff = record(&["S-10345", "D-20000"], "older work", "Fixes S-10345 and D-20000", (2, 10, 3));
    assert_eq!(
        diff.to_text(),
        "S-10345, D-20000 (0) :: (2 files, ∑(10,|-3|) = 13) :: older work -> Fixes S-10345 and D-20000"
    );
    let diff = record(&[], "", "", (0, 0, 0));
    assert_eq!(diff.to_text(), " (0) :: (0 files, ∑(0,|-0|) = 0) ::  -> ");
}

#[test]
fn the_sum_of_a_change_never_wraps() {
    let diff = record(&["S-1"], "a", "b", (1, usize::MAX, usize::MAX));
    let sum = (usize::MAX as u128) * 2;
    assert_eq!(
        diff.to_text(),
        format!("S-1 (0) :: (1 files, ∑({},|-{}|) = {}) :: a -> b", usize::MAX, usize::MAX, sum)
    );
}

#[test]
fn a_total_as_text() {
    assert_eq!(
        total("S-10345", "5", (3, 15, 4, 2)).to_text(),
        "S-10345 (5) :: (3 files, ∑(15,|-4|) = 19) in 2 commits"
    );
    assert_eq!(
        total("orphan", "0", (0, 0, 0, 0)).to_text(),
        "orphan (0) :: (0 files, ∑(0,|-0|) = 0) in 0 commits"
    );
}

#[test]
fn an_assignment_as_text() {
    let point = StoryPoint { story_number: "S-10345".to_string(), points: "5".to_string() };
    assert_eq!(point.to_text(), "S-10345 => 5sp\n");
}

#[test]
fn collections_as_text() {
    let diffs = DiffCollection {
        diffs: vec![record(&["A-1"], "a", "b", (1, 2, 3)), record(&[], "b", "c", (4, 5, 6))],
    };
    assert_eq!(
        diffs.to_text(),
        "A-1 (0) :: (1 files, ∑(2,|-3|) = 5) :: a -> b\n (0) :: (4 files, ∑(5,|-6|) = 11) :: b -> c\n"
    );
    assert_eq!(DiffCollection { diffs: Vec::new() }.to_text(), "");

    let points = StoryPointCollection {
        story_points: vec![
            StoryPoint { story_number: "A-1".to_string(), points: "3".to_string() },
            StoryPoint { story_number: "B-2".to_string(), points: "8".to_string() },
        ],
    };
    assert_eq!(points.to_text(), "A-1 => 3sp\n\nB-2 => 8sp\n\n");

    let totals = DiffTotalCollection::from_totals(vec![
        total("A-1", "3", (1, 2, 3, 1)),
        total("B-2", "0", (10, 20, 30, 4)),
    ])
    .unwrap();
    assert_eq!(
        totals.to_text(),
        "A-1 (3) :: (1 files, ∑(2,|-3|) = 5) in 1 commits\nB-2 (0) :: (10 files, ∑(20,|-30|) = 50) in 4 commits\n"
    );
    assert_eq!(DiffTotalCollection::new().to_text(), "");
}
