use sysmon::gitanalyzer::{CommitRecord, HunkLines};
use sysmon::tally::{progress_due, GitTally};

fn hunk(path: &str, new_lines: u32, old_lines: u32) -> HunkLines {
    HunkLines { path: Some(path.to_string()), new_lines, old_lines }
}

fn commit(author: Option<&str>, time: i64, summary: &str, ins: usize, del: usize, paths: &[&str], hunks: Vec<HunkLines>) -> CommitRecord {
    CommitRecord {
        author: author.map(|a| a.to_string()),
        time,
        summary: Some(summary.to_string()),
        insertions: ins,
        deletions: del,
        delta_paths: paths.iter().map(|p| Some(p.to_string())).collect(),
        hunks,
    }
}

fn sample_history() -> Vec<CommitRecord> {
    vec![
        // Tuesday 2023-11-14 23:13:20 UTC
        commit(Some("alice"), 1_700_003_600, "second change to the parser", 5, 2, &["src/a.rs"], vec![hunk("src/a.rs", 5, 2)]),
        // Wednesday 2023-11-15 23:13:20 UTC
        commit(Some("bob"), 1_700_090_000, "docs", 4, 0, &["README.md", "src/a.rs"], vec![hunk("README.md", 3, 0), hunk("src/a.rs", 1, 0)]),
        // Sunday 2020-09-13 12:26:40 UTC: the earliest
        commit(Some("alice"), 1_600_000_000, "initial import of the whole project tree with tools", 10, 0, &["src/a.rs", "src/b.rs"], vec![hunk("src/a.rs", 7, 0), hunk("src/b.rs", 3, 0)]),
    ]
}

#[test]
fn tally_of_three_commits() {
    let mut t = GitTally::new();
    for c in sample_history() {
        assert!(t.add_commit(&c));
    }
    let s = t.finish("/repo", 3, 19676);
    assert_eq!(s.repo_path, "/repo");
    assert_eq!(s.total_commits, 3);
    assert_eq!(s.total_authors, 2);
    assert_eq!(s.authors.len(), 2);
    // most commits first
    assert_eq!(s.authors[0].name, "alice");
    assert_eq!(s.authors[0].commits, 2);
    assert_eq!(s.authors[0].additions, 15);
    assert_eq!(s.authors[0].deletions, 2);
    assert_eq!(s.authors[0].files_touched, 2);
    assert_eq!(s.authors[1].name, "bob");
    assert_eq!(s.authors[1].commits, 1);
    assert_eq!(s.authors[1].additions, 4);
    assert_eq!(s.authors[1].files_touched, 2);
    // files: src/a.rs changed 3 times by 2 authors
    assert_eq!(s.total_files, 3);
    assert_eq!(s.hot_files[0].path, "src/a.rs");
    assert_eq!(s.hot_files[0].changes, 3);
    assert_eq!(s.hot_files[0].additions, 13);
    assert_eq!(s.hot_files[0].deletions, 2);
    assert_eq!(s.hot_files[0].authors, 2);
    for f in &s.hot_files[1..] {
        assert_eq!(f.changes, 1);
        assert_eq!(f.authors, 1);
    }
    // heat map: Monday is row 0
    assert_eq!(s.heatmap[1][23], 1);
    assert_eq!(s.heatmap[2][23], 1);
    assert_eq!(s.heatmap[6][12], 1);
    let total: usize = s.heatmap.iter().flat_map(|r| r.iter()).sum();
    assert_eq!(total, 3);
    // activity: the last day is day 19676
    assert_eq!(s.activity.len(), 364);
    assert_eq!(s.activity[363], 1);
    assert_eq!(s.activity[362], 1);
    assert_eq!(s.activity.iter().sum::<usize>(), 2);
    assert_eq!(s.first_commit, "2020-09-13 initial import of the whole project tree");
    assert_eq!(s.last_commit, "2023-11-15 docs");
}

#[test]
fn tally_of_no_commits() {
    let t = GitTally::new();
    let s = t.finish("/empty", 0, 19000);
    assert_eq!(s.total_commits, 0);
    assert_eq!(s.authors.len(), 0);
    assert_eq!(s.hot_files.len(), 0);
    assert_eq!(s.activity, vec![0; 364]);
    assert_eq!(s.first_commit, "- ");
    assert_eq!(s.last_commit, "- ");
}

#[test]
fn unknown_author_and_missing_summary() {
    let mut t = GitTally::new();
    let mut c = commit(None, 0, "", 1, 0, &["x"], vec![hunk("x", 1, 0)]);
    c.summary = None;
    assert!(t.add_commit(&c));
    let s = t.finish("r", 1, 0);
    assert_eq!(s.authors[0].name, "Unknown");
    // 1970-01-01 was a Thursday
    assert_eq!(s.heatmap[3][0], 1);
    assert_eq!(s.first_commit, "1970-01-01 ");
}

#[test]
fn hunks_of_files_without_a_delta_are_ignored() {
    let mut t = GitTally::new();
    let c = commit(Some("carol"), 100, "m", 9, 9, &["kept"], vec![hunk("kept", 2, 1), hunk("other", 7, 8)]);
    assert!(t.add_commit(&c));
    let s = t.finish("r", 1, 0);
    assert_eq!(s.hot_files.len(), 1);
    assert_eq!(s.hot_files[0].path, "kept");
    assert_eq!(s.hot_files[0].additions, 2);
    assert_eq!(s.hot_files[0].deletions, 1);
    // the author's totals come from the diff's own counts
    assert_eq!(s.authors[0].additions, 9);
    assert_eq!(s.authors[0].deletions, 9);
}

#[test]
fn at_most_one_hundred_hot_files() {
    let mut t = GitTally::new();
    let names: Vec<String> = (0..130).map(|i| format!("f{i}")).collect();
    let refs: Vec<&str> = names.iter().map(|s| s.as_str()).collect();
    let c = commit(Some("dan"), 5, "many", 0, 0, &refs, vec![]);
    assert!(t.add_commit(&c));
    let c2 = commit(Some("dan"), 6, "again", 0, 0, &["f7"], vec![]);
    assert!(t.add_commit(&c2));
    let s = t.finish("r", 2, 0);
    assert_eq!(s.hot_files.len(), 100);
    assert_eq!(s.total_files, 100);
    assert_eq!(s.hot_files[0].path, "f7");
    assert_eq!(s.hot_files[0].changes, 2);
    assert_eq!(s.authors[0].files_touched, 130);
}

#[test]
fn progress_every_two_hundred_commits() {
    assert!(progress_due(0));
    assert!(!progress_due(1));
    assert!(!progress_due(199));
    assert!(progress_due(200));
    assert!(progress_due(400));
}
