use git_history::delta::{calculate_commit_delta, Change, DeltaResult, EntryMode};
use git_history::owners::CodeownersCandidate;
use git_history::search::SearchOptions;

fn file_mode() -> EntryMode {
    EntryMode { is_blob: true, is_executable: false }
}

/// The changes between two trees given as (path, content) lists, as a tree diff reports
/// them: files only in the new tree are added, files only in the old tree are deleted,
/// files in both with different contents are modified.
fn diff(old: &[(&str, &str)], new: &[(&str, &str)]) -> Vec<Change> {
    let mut changes = Vec::new();
    for (path, content) in new {
        match old.iter().find(|(p, _)| p == path) {
            None => changes.push(Change::Addition {
                location: path.to_string(),
                mode: file_mode(),
                content: Some(content.as_bytes().to_vec()),
            }),
            Some((_, previous)) if previous != content => changes.push(Change::Modification {
                location: path.to_string(),
                mode: file_mode(),
                previous_content: Some(previous.as_bytes().to_vec()),
                content: Some(content.as_bytes().to_vec()),
            }),
            Some(_) => {}
        }
    }
    for (path, content) in old {
        if !new.iter().any(|(p, _)| p == path) {
            changes.push(Change::Deletion {
                location: path.to_string(),
                mode: file_mode(),
                content: Some(content.as_bytes().to_vec()),
            });
        }
    }
    changes
}

/// What looking up the CODEOWNERS locations finds in a tree.
fn owner_files(tree: &[(&str, &str)]) -> Vec<CodeownersCandidate> {
    ["CODEOWNERS", ".github/CODEOWNERS", "docs/CODEOWNERS"]
        .iter()
        .map(|location| match tree.iter().find(|(p, _)| p == location) {
            Some((_, content)) => CodeownersCandidate::Blob(content.as_bytes().to_vec()),
            None => CodeownersCandidate::Missing,
        })
        .collect()
}

fn delta_of(old: &[(&str, &str)], new: &[(&str, &str)], search_options: &SearchOptions) -> DeltaResult {
    calculate_commit_delta(search_options, &diff(old, new), None).unwrap()
}

fn owned_delta_of(old: &[(&str, &str)], new: &[(&str, &str)], search_options: &SearchOptions) -> DeltaResult {
    let files = owner_files(new);
    calculate_commit_delta(search_options, &diff(old, new), Some(&files)).unwrap()
}

#[test]
fn test_calculate_commit_delta_addition() {
    let search_options = SearchOptions::literal("test");
    let result = delta_of(&[], &[("file.txt", "test test")], &search_options);
    assert_eq!(result.delta, 2);
}

#[test]
fn test_calculate_commit_delta_modification() {
    let search_options = SearchOptions::literal("test");
    let result = delta_of(&[("file.txt", "test")], &[("file.txt", "test test test")], &search_options);
    assert_eq!(result.delta, 2);
}

#[test]
fn test_calculate_commit_delta_deletion() {
    let search_options = SearchOptions::literal("test");
    let result = delta_of(&[("file.txt", "test test test")], &[("file.txt", "test")], &search_options);
    assert_eq!(result.delta, -2);
}

#[test]
fn test_calculate_commit_delta_multiple_files() {
    let search_options = SearchOptions::literal("test");
    let result = delta_of(
        &[("file1.txt", "test"), ("file2.txt", "test test")],
        &[("file1.txt", "test test test"), ("file2.txt", "test")],
        &search_options,
    );
    assert_eq!(result.delta, 1);
}

#[test]
fn test_calculate_commit_delta_no_matches() {
    let search_options = SearchOptions::literal("test");
    let result = delta_of(&[], &[("file.txt", "hello world")], &search_options);
    assert_eq!(result.delta, 0);
}

#[test]
fn test_calculate_commit_delta_case_sensitive() {
    let search_options = SearchOptions::literal("test");
    let result = delta_of(&[], &[("file.txt", "Test test TEST")], &search_options);
    assert_eq!(result.delta, 1);
}

#[test]
fn test_calculate_commit_delta_mixed_operations() {
    let search_options = SearchOptions::literal("test");
    let result = delta_of(
        &[("a.txt", "test test"), ("b.txt", "test"), ("c.txt", "hello world")],
        &[("a.txt", "test"), ("b.txt", "test test test test"), ("c.txt", "test world")],
        &search_options,
    );
    assert_eq!(result.delta, 3);
}

#[test]
fn test_calculate_commit_delta_file_removal_and_addition() {
    let search_options = SearchOptions::literal("test");
    let result = delta_of(
        &[("old.txt", "test test test"), ("keep.txt", "test")],
        &[("keep.txt", "test test"), ("new.txt", "test test test test")],
        &search_options,
    );
    assert_eq!(result.delta, 2);
}

#[test]
fn test_case_insensitive_search() {
    let search_options = SearchOptions::case_insensitive("test");
    let result = delta_of(&[], &[("file.txt", "Test test TEST")], &search_options);
    assert_eq!(result.delta, 3);
}

#[test]
fn test_case_insensitive_modification() {
    let search_options = SearchOptions::case_insensitive("test");
    let result = delta_of(&[("file.txt", "TEST")], &[("file.txt", "Test test TEST")], &search_options);
    assert_eq!(result.delta, 2);
}

#[test]
fn test_regex_search_simple() {
    let search_options = SearchOptions::regex(r"test").unwrap();
    let result = delta_of(&[], &[("file.txt", "test Test testing")], &search_options);
    assert_eq!(result.delta, 2); // matches "test" and "testing"
}

#[test]
fn test_regex_case_insensitive() {
    let search_options = SearchOptions::regex(r"(?i)test").unwrap();
    let result = delta_of(&[], &[("file.txt", "Test test TEST testing")], &search_options);
    assert_eq!(result.delta, 4); // matches "Test", "test", "TEST", "testing"
}

#[test]
fn test_regex_pattern() {
    let search_options = SearchOptions::regex(r"test\d+").unwrap();
    let result = delta_of(&[], &[("file.txt", "test123 test456 testing")], &search_options);
    assert_eq!(result.delta, 2); // matches "test123" and "test456"
}

#[test]
fn test_codeowners_basic() {
    let search_options = SearchOptions::literal("test");
    let result = owned_delta_of(
        &[],
        &[("CODEOWNERS", "*.rs @rust-team\n*.md @docs-team\n"), ("file.rs", "test")],
        &search_options,
    );

    assert_eq!(result.delta, 1);
    assert!(result.owner_deltas.is_some());

    let owner_deltas = result.owner_deltas.unwrap();
    assert_eq!(owner_deltas.get("@rust-team"), Some(1));
}

#[test]
fn test_codeowners_multiple_files() {
    let search_options = SearchOptions::literal("test");
    let result = owned_delta_of(
        &[],
        &[
            ("CODEOWNERS", "*.rs @rust-team\n*.md @docs-team\n"),
            ("code.rs", "test test"),
            ("readme.md", "test"),
        ],
        &search_options,
    );

    assert_eq!(result.delta, 3);
    assert!(result.owner_deltas.is_some());

    let owner_deltas = result.owner_deltas.unwrap();
    assert_eq!(owner_deltas.get("@rust-team"), Some(2));
    assert_eq!(owner_deltas.get("@docs-team"), Some(1));
}

#[test]
fn test_codeowners_unowned_files() {
    let search_options = SearchOptions::literal("test");
    let result = owned_delta_of(
        &[],
        &[("CODEOWNERS", "*.rs @rust-team\n"), ("code.rs", "test"), ("other.txt", "test test")],
        &search_options,
    );

    assert_eq!(result.delta, 3);
    assert!(result.owner_deltas.is_some());

    let owner_deltas = result.owner_deltas.unwrap();
    assert_eq!(owner_deltas.get("@rust-team"), Some(1));
    assert_eq!(owner_deltas.get("unowned"), Some(2));
}

#[test]
fn test_codeowners_modification() {
    let search_options = SearchOptions::literal("test");
    let result = owned_delta_of(
        &[("CODEOWNERS", "*.rs @rust-team\n"), ("code.rs", "test")],
        &[("CODEOWNERS", "*.rs @rust-team\n"), ("code.rs", "test test test")],
        &search_options,
    );

    assert_eq!(result.delta, 2);
    assert!(result.owner_deltas.is_some());

    let owner_deltas = result.owner_deltas.unwrap();
    assert_eq!(owner_deltas.get("@rust-team"), Some(2));
}

#[test]
fn test_codeowners_disabled() {
    let search_options = SearchOptions::literal("test");
    let result = delta_of(&[], &[("CODEOWNERS", "*.rs @rust-team\n"), ("code.rs", "test")], &search_options);

    assert_eq!(result.delta, 1);
    assert!(result.owner_deltas.is_none());
}

#[test]
fn test_codeowners_multiple_owners_single_file() {
    let search_options = SearchOptions::literal("test");
    let result = owned_delta_of(
        &[],
        &[("CODEOWNERS", "*.rs @team1 @team2\n"), ("code.rs", "test test test")],
        &search_options,
    );

    assert_eq!(result.delta, 3);
    assert!(result.owner_deltas.is_some());

    let owner_deltas = result.owner_deltas.unwrap();
    // Both teams get all 3 matches
    assert_eq!(owner_deltas.get("@team1"), Some(3));
    assert_eq!(owner_deltas.get("@team2"), Some(3));
}

#[test]
fn test_codeowners_ownership_change() {
    let search_options = SearchOptions::literal("test");
    // First commit: owned by team1; second commit: ownership changed to team2
    let result = owned_delta_of(
        &[("CODEOWNERS", "*.rs @team1\n"), ("code.rs", "test test")],
        &[("CODEOWNERS", "*.rs @team2\n"), ("code.rs", "test test test")],
        &search_options,
    );

    assert_eq!(result.delta, 1);
    assert!(result.owner_deltas.is_some());

    let owner_deltas = result.owner_deltas.unwrap();
    // Only team2 gets the delta of this commit (the rules are read per commit)
    assert_eq!(owner_deltas.get("@team2"), Some(1));
    assert!(owner_deltas.get("@team1").is_none());
}
