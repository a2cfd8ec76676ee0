use story_diff::args::{CollectArgs, TotalArgs};
use story_diff::collect::{CommitPair, DiffStats};
use story_diff::commands::{collect_repo, join_collections, run, total};
use story_diff::diff::{DiffCollection, DiffResult, StoryPoint, StoryPointCollection};
use story_diff::errors::{BackendError, CliError, InputError, JsonCategory};
use story_diff::matcher::Matcher;

fn record(ids: &[&str], summary: &str, files_changed: usize) -> DiffResult {
    DiffResult {
        story_number: ids.iter().map(|id| id.to_string()).collect(),
        points: "0".to_string(),
        first_summary: "older".to_string(),
        second_summary: summary.to_string(),
        files_changed,
        insertions: 10 * files_changed,
        deletions: 100 * files_changed,
    }
}

fn measured(summary: &str, stats: (usize, usize, usize)) -> CommitPair {
    CommitPair {
        first_summary: Some("older".to_string()),
        second_summary: Some(summary.to_string()),
        diff: Ok(DiffStats { files_changed: stats.0, insertions: stats.1, deletions: stats.2 }),
    }
}

fn broken(message: &str) -> CommitPair {
    CommitPair {
        first_summary: None,
        second_summary: None,
        diff: Err(BackendError { message: message.to_string() }),
    }
}

fn five_points_for(story_number: &str) -> Option<StoryPointCollection> {
    Some(StoryPointCollection {
        story_points: vec![StoryPoint {
            story_number: story_number.to_string(),
            points: "5".to_string(),
        }],
    })
}

#[test]
fn joined_collections_keep_their_order() {
    let all = join_collections(vec![
        DiffCollection { diffs: vec![record(&["A-1"], "one", 1), record(&[], "two", 2)] },
        DiffCollection { diffs: Vec::new() },
        DiffCollection { diffs: vec![record(&["B-2"], "three", 3)] },
    ]);
    let summaries: Vec<&str> = all.diffs.iter().map(|diff| diff.second_summary.as_str()).collect();
    assert_eq!(summaries, vec!["one", "two", "three"]);
    assert_eq!(all.diffs[2].story_number, vec!["B-2".to_string()]);
    assert_eq!(all.diffs[2].deletions, 300);
    assert!(join_collections(Vec::new()).diffs.is_empty());
}

#[test]
fn total_sums_over_all_collections_and_merges_points() {
    let collections = vec![
        DiffCollection { diffs: vec![record(&["S-10345"], "one", 1)] },
        DiffCollection { diffs: vec![record(&["S-10345", "D-20000"], "two", 2)] },
    ];
    let totals = total(&join_collections(collections), &five_points_for("S-10345")).unwrap();
    assert_eq!(totals.len(), 2);
    let story = totals.get(&"S-10345".to_string()).unwrap();
    assert_eq!(story.points, "5");
    assert_eq!(story.files_changed, 3);
    assert_eq!(story.insertions, 30);
    assert_eq!(story.deletions, 300);
    assert_eq!(story.total_diff_results, 2);
    let defect = totals.get(&"D-20000".to_string()).unwrap();
    assert_eq!(defect.points, "0");
    assert_eq!(defect.files_changed, 2);
    assert_eq!(defect.total_diff_results, 1);
}

#[test]
fn total_without_points_leaves_points_unset() {
    let diffs = DiffCollection { diffs: vec![record(&["S-10345"], "one", 1)] };
    let totals = total(&diffs, &None).unwrap();
    assert_eq!(totals.get(&"S-10345".to_string()).unwrap().points, "0");
    let totals = total(&join_collections(Vec::new()), &None).unwrap();
    assert_eq!(totals.len(), 0);
}

#[test]
fn total_reports_a_total_that_cannot_be_held() {
    let mut large = record(&["S-10345"], "one", 1);
    large.insertions = usize::MAX;
    let collections = vec![
        DiffCollection { diffs: vec![large] },
        DiffCollection { diffs: vec![record(&["S-10345"], "two", 1)] },
    ];
    match total(&join_collections(collections), &None) {
        Err(CliError::Input(error)) => {
            assert_eq!(error.description(), "a total is larger than this machine can count")
        }
        _ => panic!("an input error was expected"),
    }
}

#[test]
fn collect_wraps_the_failure_of_the_repository() {
    let answers = vec![Some(measured("S-10345", (1, 2, 3))), Some(broken("no diff"))];
    match collect_repo(&answers, Matcher::V1) {
        Err(CliError::Git(error)) => assert_eq!(error.message, "no diff"),
        _ => panic!("a repository error was expected"),
    }
    let answers = vec![Some(measured("S-10345", (1, 2, 3))), None];
    let collection = collect_repo(&answers, Matcher::V1).unwrap();
    assert_eq!(collection.diffs.len(), 1);
    assert_eq!(collection.diffs[0].story_number, vec!["S-10345".to_string()]);
}

#[test]
fn run_collects_and_totals() {
    let answers = vec![
        Some(measured("Fixes S-10345", (2, 10, 3))),
        None,
        Some(measured("s 10345 again, with D-20000", (1, 5, 1))),
        Some(measured("tidy up", (7, 7, 7))),
    ];
    let totals = run(&answers, Matcher::V1, &five_points_for("D-20000")).unwrap();
    assert_eq!(totals.len(), 3);
    let story = totals.get(&"S-10345".to_string()).unwrap();
    assert_eq!(
        (story.files_changed, story.insertions, story.deletions, story.total_diff_results),
        (3, 15, 4, 2)
    );
    assert_eq!(story.points, "0");
    let defect = totals.get(&"D-20000".to_string()).unwrap();
    assert_eq!(
        (defect.files_changed, defect.insertions, defect.deletions, defect.total_diff_results),
        (1, 5, 1, 1)
    );
    assert_eq!(defect.points, "5");
    let orphan = totals.get(&"orphan".to_string()).unwrap();
    assert_eq!(
        (orphan.files_changed, orphan.insertions, orphan.deletions, orphan.total_diff_results),
        (7, 7, 7, 1)
    );
}

#[test]
fn run_ends_with_the_failure_of_the_repository() {
    let answers = vec![Some(broken("gone")), Some(measured("S-10345", (1, 2, 3)))];
    match run(&answers, Matcher::V1, &None) {
        Err(CliError::Git(error)) => assert_eq!(error.message, "gone"),
        _ => panic!("a repository error was expected"),
    }
}

#[test]
fn run_reports_a_total_that_cannot_be_held() {
    let answers = vec![
        Some(measured("S-10345", (usize::MAX, 0, 0))),
        Some(measured("S-10345", (1, 0, 0))),
    ];
    match run(&answers, Matcher::V1, &None) {
        Err(CliError::Input(error)) => {
            assert_eq!(error.description(), "a total is larger than this machine can count")
        }
        _ => panic!("an input error was expected"),
    }
}

#[test]
fn default_arguments() {
    let args = CollectArgs::defaults();
    assert_eq!(args.branch, "master");
    assert_eq!(args.matcher, "v1");
    assert_eq!(args.path, ".");
    assert_eq!(args.points_path, None);
    assert_eq!(args.scheme().unwrap(), Matcher::V1);
}

#[test]
fn an_unknown_matcher_is_an_input_error() {
    let mut args = CollectArgs::defaults();
    args.matcher = "jira".to_string();
    assert_eq!(args.scheme().unwrap(), Matcher::Jira);
    args.matcher = "svn".to_string();
    assert_eq!(args.scheme().unwrap_err().description(), "The matcher must be one of: v1, jira.");
    args.matcher = String::new();
    assert!(args.scheme().is_err());
}

#[test]
fn no_input_files_is_an_input_error() {
    let args = TotalArgs::new(Vec::new(), Some("points.json".to_string()));
    assert_eq!(args.paths, None);
    assert_eq!(args.points_path, Some("points.json".to_string()));
    assert_eq!(
        args.input_paths().unwrap_err().description(),
        "You must specify at least one input file path."
    );
    let args = TotalArgs::new(vec!["a.json".to_string(), "b.json".to_string()], None);
    assert_eq!(args.paths, Some(vec!["a.json".to_string(), "b.json".to_string()]));
    assert_eq!(args.input_paths().unwrap(), &vec!["a.json".to_string(), "b.json".to_string()]);
    assert_eq!(args.points_path, None);
}

#[test]
fn json_failures_become_input_errors() {
    let cases = [
        (JsonCategory::Io, "An IO error occurred: disk"),
        (JsonCategory::Syntax, "A syntax error occurred: disk"),
        (JsonCategory::Data, "A data error occurred: disk"),
        (JsonCategory::Eof, "Unexpected EOF. disk"),
    ];
    for (category, expected) in cases {
        let error = CliError::from_json(category, "disk");
        assert_eq!(error.description(), expected);
        assert!(matches!(error, CliError::Input(_)));
    }
    assert_eq!(CliError::from_json(JsonCategory::Eof, "").description(), "Unexpected EOF. ");
}

#[test]
fn every_error_describes_itself() {
    let git = CliError::Git(BackendError { message: "no such branch".to_string() });
    assert_eq!(git.description(), "no such branch");
    let io = CliError::IO("file not found".to_string());
    assert_eq!(io.description(), "file not found");
    let input = CliError::Input(InputError::new("bad input"));
    assert_eq!(input.description(), "bad input");
    assert_eq!(InputError::from("owned".to_string()).description(), "owned");
    assert_eq!(InputError::new("").description(), "");
}
