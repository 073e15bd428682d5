use git_history::delta::{
    calculate_change_delta, calculate_commit_delta, count_matches_in_blob, is_searched_entry,
    try_calculate_commit_delta, Change,
    DeltaResult, EntryMode,
};
use git_history::owners::{
    codeowners_candidates_usable, codeowners_locations, determine_owners, read_codeowners, CodeOwners,
    CodeownersCandidate,
};
use git_history::scan::{commits_found_message, format_count, scan_changes, sum_counts};
use git_history::search::{RegexMatcher, SearchError, SearchOptions};
use git_history::syntax::codeowners_parse_ok;
use git_history::tally::OwnerTally;
use git_history::timeline::{build_timeline, extract_commit_metadata, CommitData, CommitMetadata};

fn file_mode() -> EntryMode {
    EntryMode { is_blob: true, is_executable: false }
}

fn added(path: &str, content: &[u8]) -> Change {
    Change::Addition { location: path.to_string(), mode: file_mode(), content: Some(content.to_vec()) }
}

fn deleted(path: &str, content: &[u8]) -> Change {
    Change::Deletion { location: path.to_string(), mode: file_mode(), content: Some(content.to_vec()) }
}

fn modified(path: &str, previous: Option<&[u8]>, content: Option<&[u8]>) -> Change {
    Change::Modification {
        location: path.to_string(),
        mode: file_mode(),
        previous_content: previous.map(|p| p.to_vec()),
        content: content.map(|c| c.to_vec()),
    }
}

#[test]
fn literal_matches_do_not_overlap() {
    let opts = SearchOptions::literal("aa");
    assert_eq!(opts.count_matches("aaaa"), Some(2));
    assert_eq!(opts.count_matches("aaa"), Some(1));
    assert_eq!(opts.count_matches("a"), Some(0));
}

#[test]
fn empty_pattern_matches_at_every_character_boundary() {
    let opts = SearchOptions::literal("");
    assert_eq!(opts.count_matches(""), Some(1));
    assert_eq!(opts.count_matches("aé"), Some(3));
    assert_eq!(opts.count_matches("aé"), Some("aé".matches("").count() as i64));
}

#[test]
fn non_ascii_matches_count_like_str_matches() {
    let opts = SearchOptions::literal("é");
    let text = "café é ée";
    assert_eq!(opts.count_matches(text), Some(text.matches("é").count() as i64));
}

#[test]
fn case_insensitive_lowercases_pattern_and_text() {
    let opts = SearchOptions::case_insensitive("ÉTÉ");
    match &opts {
        SearchOptions::CaseInsensitive { lower_pattern } => assert_eq!(lower_pattern, "été"),
        _ => panic!("expected a case-insensitive search"),
    }
    assert_eq!(opts.count_matches("Été ÉTÉ été ete"), Some(3));
}

#[test]
fn regex_option_ignores_case_flag() {
    let opts = SearchOptions::new("Te.t", true, true).unwrap();
    match &opts {
        SearchOptions::Regex { regex } => assert_eq!(regex.as_str(), "Te.t"),
        _ => panic!("expected a regex search"),
    }
    assert_eq!(opts.count_matches("Test test TEST Text"), Some(2));
}

#[test]
fn invalid_regex_is_an_error() {
    assert!(matches!(SearchOptions::regex("foo(bar"), Err(SearchError::InvalidRegex(_))));
    assert!(SearchOptions::new("foo(bar", false, true).is_err());
    assert!(RegexMatcher::new("[").is_err());
    // the same pattern is only a literal when the regex flag is off
    let opts = SearchOptions::new("foo(bar", false, false).unwrap();
    assert_eq!(opts.count_matches("foo(bar) foo(bar"), Some(2));
}

#[test]
fn regex_empty_matches_are_counted() {
    let opts = SearchOptions::regex("x*").unwrap();
    let re = regex::Regex::new("x*").unwrap();
    assert_eq!(opts.count_matches("abxc"), Some(re.find_iter("abxc").count() as i64));
}

#[test]
fn blobs_that_are_not_utf8_count_nothing() {
    let opts = SearchOptions::literal("test");
    assert_eq!(count_matches_in_blob(&opts, &Some(vec![0xff, 0xfe, b't'])), None);
    assert_eq!(count_matches_in_blob(&opts, &None), None);
    assert_eq!(count_matches_in_blob(&opts, &Some(b"test".to_vec())), Some(1));
    let changes = vec![added("bin.dat", &[0xff, 0x74, 0x65, 0x73, 0x74]), added("a.txt", b"test")];
    assert_eq!(calculate_commit_delta(&opts, &changes, None).unwrap().delta, 1);
}

#[test]
fn modification_needs_both_blobs() {
    let opts = SearchOptions::literal("x");
    assert_eq!(calculate_change_delta(&opts, &modified("f", Some(b"x"), Some(b"xx"))), Some(1));
    assert_eq!(calculate_change_delta(&opts, &modified("f", None, Some(b"xx"))), None);
    assert_eq!(calculate_change_delta(&opts, &modified("f", Some(b"x"), None)), None);
}

#[test]
fn deletion_undoes_addition() {
    let opts = SearchOptions::literal("ab");
    let content = b"ab ab abab";
    let a = calculate_change_delta(&opts, &added("f", content)).unwrap();
    let d = calculate_change_delta(&opts, &deleted("f", content)).unwrap();
    assert_eq!(a, 4);
    assert_eq!(a + d, 0);
    let there = calculate_change_delta(&opts, &modified("f", Some(b"ab"), Some(b"ab ab ab"))).unwrap();
    let back = calculate_change_delta(&opts, &modified("f", Some(b"ab ab ab"), Some(b"ab"))).unwrap();
    assert_eq!(there, 2);
    assert_eq!(there + back, 0);
}

#[test]
fn only_non_executable_blobs_are_searched() {
    assert!(is_searched_entry(EntryMode { is_blob: true, is_executable: false }));
    assert!(!is_searched_entry(EntryMode { is_blob: true, is_executable: true }));
    assert!(!is_searched_entry(EntryMode { is_blob: false, is_executable: false }));
    let opts = SearchOptions::literal("test");
    let changes = vec![
        Change::Addition {
            location: "run.sh".to_string(),
            mode: EntryMode { is_blob: true, is_executable: true },
            content: Some(b"test test".to_vec()),
        },
        added("notes.txt", b"test"),
    ];
    assert_eq!(calculate_commit_delta(&opts, &changes, None).unwrap().delta, 1);
    assert_eq!(scan_changes(&changes, "test"), Some(1));
}

#[test]
fn scan_counts_the_removed_blob_of_a_deletion() {
    let changes = vec![deleted("old.txt", b"foo foo"), added("new.txt", b"foo")];
    assert_eq!(scan_changes(&changes, "foo"), Some(3));
}

#[test]
fn sums_that_overflow_are_refused() {
    assert_eq!(sum_counts(&vec![1, 2, 3]), Some(6));
    assert_eq!(sum_counts(&vec![usize::MAX, 1]), None);
    assert_eq!(sum_counts(&vec![]), Some(0));
}

#[test]
fn counts_are_grouped_by_thousands() {
    assert_eq!(format_count(0), "0");
    assert_eq!(format_count(999), "999");
    assert_eq!(format_count(1000), "1,000");
    assert_eq!(format_count(1234567), "1,234,567");
    assert_eq!(format_count(1000001), "1,000,001");
    assert_eq!(commits_found_message(12345), "Got 12,345 commits");
}

#[test]
fn codeowners_locations_in_priority_order() {
    assert_eq!(codeowners_locations(), vec!["CODEOWNERS", ".github/CODEOWNERS", "docs/CODEOWNERS"]);
}

#[test]
fn first_readable_codeowners_file_wins() {
    let rules = |s: &str| CodeownersCandidate::Blob(s.as_bytes().to_vec());
    let chosen = read_codeowners(&vec![CodeownersCandidate::Missing, rules("* @github"), rules("* @docs")]);
    assert_eq!(chosen.unwrap().of("a.txt"), Some(vec!["@github".to_string()]));
    let chosen = read_codeowners(&vec![CodeownersCandidate::NotBlob, CodeownersCandidate::Blob(vec![0xff]), rules("* @docs")]);
    assert_eq!(chosen.unwrap().of("a.txt"), Some(vec!["@docs".to_string()]));
    assert!(read_codeowners(&vec![CodeownersCandidate::Unreadable, rules("* @github")]).is_none());
    assert!(read_codeowners(&vec![CodeownersCandidate::Missing, CodeownersCandidate::Missing]).is_none());
}

#[test]
fn later_codeowners_rules_take_precedence() {
    let owners = CodeOwners::try_parse("# comment\n*.rs @rust\nsrc/ @core @lead\n").unwrap();
    assert_eq!(owners.of("lib.rs"), Some(vec!["@rust".to_string()]));
    assert_eq!(owners.of("src/main.rs"), Some(vec!["@core".to_string(), "@lead".to_string()]));
    assert_eq!(owners.of("README"), None);
}

#[test]
fn paths_without_rules_are_unowned() {
    assert_eq!(determine_owners(&None, "a.rs"), vec!["unowned".to_string()]);
    let owners = Some(CodeOwners::try_parse("*.md @docs\n").unwrap());
    assert_eq!(determine_owners(&owners, "a.rs"), vec!["unowned".to_string()]);
    assert_eq!(determine_owners(&owners, "a.md"), vec!["@docs".to_string()]);
}

#[test]
fn malformed_codeowners_patterns_are_detected() {
    assert!(codeowners_parse_ok("*.rs @a\n\n# x [\n   \ndocs/ @b\r\n"));
    assert!(!codeowners_parse_ok("abc[ @a\n"));
    assert!(!codeowners_parse_ok("*.rs @a\nfoo**bar @b"));
    assert!(CodeOwners::try_parse("a**b @x").is_none());
    assert!(CodeOwners::try_parse("**/a @x").is_some());
    let bad = vec![CodeownersCandidate::Blob(b"[ @x\n".to_vec())];
    assert!(!codeowners_candidates_usable(&bad));
    let fine = vec![CodeownersCandidate::Missing, CodeownersCandidate::Blob(b"*.rs @x\n".to_vec())];
    assert!(codeowners_candidates_usable(&fine));
}

#[test]
fn owner_tally_adds_and_merges() {
    let mut a = OwnerTally::new();
    assert!(a.add(&"@x".to_string(), 2));
    assert!(a.add(&"@x".to_string(), 3));
    assert!(a.add(&"@y".to_string(), -1));
    assert_eq!(a.get("@x"), Some(5));
    assert_eq!(a.get("@y"), Some(-1));
    assert_eq!(a.get("@z"), None);
    assert_eq!(a.len(), 2);
    assert!(!a.add(&"@x".to_string(), i64::MAX));
    assert_eq!(a.get("@x"), Some(5));

    let mut b = OwnerTally::new();
    assert!(b.add(&"@y".to_string(), 4));
    assert!(b.add(&"@z".to_string(), 1));
    let m = a.merged_with(&b).unwrap();
    assert_eq!(m.get("@x"), Some(5));
    assert_eq!(m.get("@y"), Some(3));
    assert_eq!(m.get("@z"), Some(1));
    let mut pairs = m.to_vec();
    pairs.sort();
    assert_eq!(pairs, vec![("@x".to_string(), 5), ("@y".to_string(), 3), ("@z".to_string(), 1)]);

    let mut big = OwnerTally::new();
    assert!(big.add(&"@x".to_string(), i64::MAX));
    assert!(a.merged_with(&big).is_none());
}

#[test]
fn commit_metadata_is_formatted() {
    let meta = CommitMetadata {
        commit_id: "0123456789abcdef0123456789abcdef01234567".to_string(),
        seconds: 1234567890,
        offset: 3600,
        message: b"Fix the parser\n\nLonger explanation.\n".to_vec(),
        author_name: "Test User".to_string(),
        author_email: "test@example.com".to_string(),
    };
    let data = extract_commit_metadata(meta, DeltaResult { delta: 7, owner_deltas: None });
    assert_eq!(data.timestamp, 1234567890);
    assert_eq!(data.date, "2009-02-14T00:31:30+01:00");
    assert_eq!(data.message, "Fix the parser");
    assert_eq!(data.commit_id, "0123456789abcdef0123456789abcdef01234567");
    assert_eq!(data.delta, 7);
}

fn commit(id: &str, timestamp: i64, delta: i64, owners: Option<Vec<(&str, i64)>>) -> CommitData {
    let owner_deltas = owners.map(|list| {
        let mut t = OwnerTally::new();
        for (name, d) in list {
            assert!(t.add(&name.to_string(), d));
        }
        t
    });
    CommitData {
        timestamp,
        date: format!("date-{}", timestamp),
        commit_id: id.to_string(),
        message: format!("commit {}", id),
        author_name: "A".to_string(),
        author_email: "a@example.com".to_string(),
        delta,
        owner_deltas,
    }
}

#[test]
fn timeline_is_oldest_first_and_stable() {
    // newest first, as a first-parent walk yields commits; c and b share a timestamp
    let commits = vec![
        commit("d", 30, 1, None),
        commit("c", 20, 2, None),
        commit("b", 20, 3, None),
        commit("a", 10, 4, None),
    ];
    let timeline = build_timeline(commits, false).unwrap();
    let ids: Vec<&str> = timeline.iter().map(|e| e.commit_id.as_str()).collect();
    assert_eq!(ids, vec!["a", "c", "b", "d"]);
    let counts: Vec<i64> = timeline.iter().map(|e| e.count).collect();
    assert_eq!(counts, vec![4, 6, 9, 10]);
    assert!(timeline.iter().all(|e| e.codeowners.is_none()));
}

#[test]
fn timeline_keeps_running_totals_per_owner() {
    let commits = vec![
        commit("b", 2, 1, Some(vec![("@y", 2), ("@x", -1)])),
        commit("a", 1, 3, Some(vec![("@x", 3)])),
        commit("c", 3, 0, None),
    ];
    let timeline = build_timeline(commits, true).unwrap();
    let owners = |k: usize| {
        let mut v = timeline[k].codeowners.clone().unwrap();
        v.sort();
        v
    };
    assert_eq!(owners(0), vec![("@x".to_string(), 3)]);
    assert_eq!(owners(1), vec![("@x".to_string(), 2), ("@y".to_string(), 2)]);
    assert_eq!(owners(2), vec![("@x".to_string(), 2), ("@y".to_string(), 2)]);
    assert_eq!(timeline[2].count, 4);
}

#[test]
fn timeline_overflow_is_refused() {
    let commits = vec![commit("a", 1, i64::MAX, None), commit("b", 2, 1, None)];
    assert!(build_timeline(commits, false).is_none());
    let commits = vec![
        commit("a", 1, 0, Some(vec![("@x", i64::MAX)])),
        commit("b", 2, 0, Some(vec![("@x", 1)])),
    ];
    assert!(build_timeline(commits, true).is_none());
}

#[test]
fn modification_counts_as_deletion_plus_addition() {
    let opts = SearchOptions::literal("na");
    let m = calculate_change_delta(&opts, &modified("f", Some(b"na"), Some(b"banana"))).unwrap();
    let d = calculate_change_delta(&opts, &deleted("f", b"na")).unwrap();
    let a = calculate_change_delta(&opts, &added("f", b"banana")).unwrap();
    assert_eq!(m, d + a);
    assert_eq!(m, 1);
}

#[test]
fn commit_delta_adds_up_over_changes() {
    let opts = SearchOptions::literal("x");
    let first = vec![added("a", b"x x"), deleted("b", b"x")];
    let second = vec![modified("c", Some(b"x"), Some(b"xxx"))];
    let both: Vec<Change> = vec![added("a", b"x x"), deleted("b", b"x"), modified("c", Some(b"x"), Some(b"xxx"))];
    let total = calculate_commit_delta(&opts, &both, None).unwrap().delta;
    let parts = calculate_commit_delta(&opts, &first, None).unwrap().delta
        + calculate_commit_delta(&opts, &second, None).unwrap().delta;
    assert_eq!(total, parts);
    assert_eq!(total, 3);
}

#[test]
fn without_codeowners_everything_is_unowned() {
    let opts = SearchOptions::literal("x");
    let changes = vec![added("a.rs", b"x x"), deleted("b.md", b"x"), added("c.txt", b"xxxx")];
    let none_found = vec![CodeownersCandidate::Missing, CodeownersCandidate::Missing, CodeownersCandidate::Missing];
    let result = calculate_commit_delta(&opts, &changes, Some(&none_found)).unwrap();
    let owners = result.owner_deltas.unwrap();
    assert_eq!(result.delta, 5);
    assert_eq!(owners.len(), 1);
    assert_eq!(owners.get("unowned"), Some(5));
}

#[test]
fn longer_pattern_never_matches() {
    let opts = SearchOptions::literal("abcdef");
    assert_eq!(opts.count_matches("abc"), Some(0));
}

#[test]
fn later_locations_are_used_when_earlier_are_missing() {
    let opts = SearchOptions::literal("x");
    let changes = vec![added("src/lib.rs", b"x")];
    let found = vec![
        CodeownersCandidate::Missing,
        CodeownersCandidate::Missing,
        CodeownersCandidate::Blob(b"src/ @core\n".to_vec()),
    ];
    let result = calculate_commit_delta(&opts, &changes, Some(&found)).unwrap();
    assert_eq!(result.owner_deltas.unwrap().get("@core"), Some(1));
}

#[test]
fn unusable_codeowners_file_is_refused_before_counting() {
    let opts = SearchOptions::literal("x");
    let changes = vec![added("a.rs", b"x")];
    let bad = vec![CodeownersCandidate::Blob(b"a**b @x\n".to_vec())];
    assert!(try_calculate_commit_delta(&opts, &changes, Some(&bad)).is_none());
    let good = vec![CodeownersCandidate::Blob(b"*.rs @x\n".to_vec())];
    let result = try_calculate_commit_delta(&opts, &changes, Some(&good)).unwrap();
    assert_eq!(result.delta, 1);
    assert_eq!(result.owner_deltas.unwrap().get("@x"), Some(1));
    assert_eq!(try_calculate_commit_delta(&opts, &changes, None).unwrap().delta, 1);
}

#[test]
fn diff_delta_equals_tree_difference() {
    // tree before: a = "x x", b = "x"; tree after: a = "x", c = "x x x"
    let opts = SearchOptions::literal("x");
    let changes = vec![modified("a", Some(b"x x"), Some(b"x")), deleted("b", b"x"), added("c", b"x x x")];
    let before = 2 + 1;
    let after = 1 + 3;
    assert_eq!(calculate_commit_delta(&opts, &changes, None).unwrap().delta, after - before);
}

#[test]
fn owner_listed_twice_is_credited_twice() {
    let opts = SearchOptions::literal("x");
    let changes = vec![added("a.rs", b"x x"), added("b.rs", b"x")];
    let found = vec![CodeownersCandidate::Blob(b"*.rs @x @x @y\nb.rs @y\n".to_vec())];
    let owners = calculate_commit_delta(&opts, &changes, Some(&found)).unwrap().owner_deltas.unwrap();
    // a.rs: 2 for @x twice and once for @y; b.rs: 1 for @y
    assert_eq!(owners.get("@x"), Some(4));
    assert_eq!(owners.get("@y"), Some(3));
}

#[test]
fn unchanged_blob_has_zero_delta() {
    let opts = SearchOptions::literal("x");
    assert_eq!(calculate_change_delta(&opts, &modified("f", Some(b"x x"), Some(b"x x"))), Some(0));
    assert_eq!(calculate_change_delta(&opts, &modified("f", Some(&[0xff]), Some(&[0xff]))), None);
}
