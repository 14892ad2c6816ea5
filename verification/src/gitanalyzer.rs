use vstd::prelude::*;
use crate::calendar::{date_text, div_toward_zero, fmt_ts};
use crate::text::{string_from};

verus! {

// ─── Data structures ──────────────────────────────────────────────────────────

pub struct AuthorStats {
    pub name: String,
    pub commits: usize,
    pub additions: usize,
    pub deletions: usize,
    pub files_touched: usize,
}

pub struct FileStats {
    pub path: String,
    /// times modified
    pub changes: usize,
    pub additions: usize,
    pub deletions: usize,
    /// distinct authors
    pub authors: usize,
}

pub struct GitStats {
    pub repo_path: String,
    pub total_commits: usize,
    pub total_authors: usize,
    pub total_files: usize,
    pub first_commit: String,
    pub last_commit: String,
    /// sorted by commits desc
    pub authors: Vec<AuthorStats>,
    /// sorted by changes desc
    pub hot_files: Vec<FileStats>,
    /// heatmap[weekday 0-6][hour 0-23] = commit count
    pub heatmap: [[usize; 24]; 7],
    /// commits per day for the last 52 weeks (364 days)
    pub activity: Vec<usize>,
}

pub enum GitMsg {
    Progress { done: usize, total: usize },
    Done(Box<GitStats>),
    Error(String),
}

/// The lines that one hunk of a commit's diff adds and removes, with the path
/// of the file it belongs to (`None` where the path is not UTF-8).
pub struct HunkLines {
    pub path: Option<String>,
    pub new_lines: u32,
    pub old_lines: u32,
}

/// What the analysis reads of one commit and of its diff against its first parent.
pub struct CommitRecord {
    pub author: Option<String>,
    /// seconds since the Unix epoch
    pub time: i64,
    pub summary: Option<String>,
    pub insertions: usize,
    pub deletions: usize,
    /// the path of each delta of the diff (new file, else old file)
    pub delta_paths: Vec<Option<String>>,
    pub hunks: Vec<HunkLines>,
}

/// The lines that one commit adds to and removes from one file.
pub struct FileDelta {
    pub path: String,
    pub additions: usize,
    pub deletions: usize,
}

// ─── One commit ──────────────────────────────────────────────────────────────

/// The name a commit is counted under.
pub open spec fn author_name(c: CommitRecord) -> Seq<char> {
    match c.author {
        Some(n) => n@,
        None => "Unknown"@,
    }
}

pub open spec fn summary_text(c: CommitRecord) -> Seq<char> {
    match c.summary {
        Some(s) => s@,
        None => Seq::empty(),
    }
}

pub open spec fn path_is(o: Option<String>, p: Seq<char>) -> bool {
    match o {
        Some(q) => q@ == p,
        None => false,
    }
}

/// Whether one of the first `n` of `paths` is `p`.
pub open spec fn path_among(paths: Seq<Option<String>>, n: int, p: Seq<char>) -> bool {
    exists|k: int| 0 <= k < n && path_is(#[trigger] paths[k], p)
}

/// Whether the diff of `c` has a delta for path `p`.
pub open spec fn touches(c: CommitRecord, p: Seq<char>) -> bool {
    path_among(c.delta_paths@, c.delta_paths@.len() as int, p)
}

/// Whether one of `ds` is for path `p`.
pub open spec fn has_delta(ds: Seq<FileDelta>, p: Seq<char>) -> bool {
    exists|k: int| 0 <= k < ds.len() && #[trigger] ds[k].path@ == p
}

pub open spec fn hunk_path(h: HunkLines) -> Seq<char> {
    match h.path {
        Some(p) => p@,
        None => Seq::empty(),
    }
}

/// The lines that the hunks `hs` of path `p` add.
pub open spec fn hunk_additions(hs: Seq<HunkLines>, p: Seq<char>) -> nat
    decreases hs.len(),
{
    if hs.len() == 0 {
        0
    } else {
        hunk_additions(hs.drop_last(), p) + if hunk_path(hs.last()) == p {
            hs.last().new_lines as nat
        } else {
            0
        }
    }
}

/// The lines that the hunks `hs` of path `p` remove.
pub open spec fn hunk_deletions(hs: Seq<HunkLines>, p: Seq<char>) -> nat
    decreases hs.len(),
{
    if hs.len() == 0 {
        0
    } else {
        hunk_deletions(hs.drop_last(), p) + if hunk_path(hs.last()) == p {
            hs.last().old_lines as nat
        } else {
            0
        }
    }
}

/// The per-file line counts of commit `c`, one entry per path it touches.
pub open spec fn deltas_ok(ds: Seq<FileDelta>, c: CommitRecord) -> bool {
    &&& forall|i: int, j: int| 0 <= i < j < ds.len() ==> ds[i].path@ != ds[j].path@
    &&& forall|p: Seq<char>| #[trigger] touches(c, p) <==> has_delta(ds, p)
    &&& forall|k: int| 0 <= k < ds.len() ==> {
        &&& #[trigger] ds[k].additions == hunk_additions(c.hunks@, ds[k].path@)
        &&& ds[k].deletions == hunk_deletions(c.hunks@, ds[k].path@)
    }
}

fn find_delta(ds: &Vec<FileDelta>, p: &String) -> (r: Option<usize>)
    ensures
        match r {
            Some(k) => k < ds@.len() && ds@[k as int].path@ == p@,
            None => forall|k: int| 0 <= k < ds@.len() ==> ds@[k].path@ != p@,
        },
{
    for i in 0..ds.len()
        invariant
            forall|k: int| 0 <= k < i ==> ds@[k].path@ != p@,
    {
        if ds[i].path == *p {
            return Some(i);
        }
    }
    None
}

/// The lines that commit `c` adds to and removes from each file it touches;
/// `None` where a count does not fit in `usize`.
pub fn commit_files(c: &CommitRecord) -> (r: Option<Vec<FileDelta>>)
    ensures
        match r {
            Some(ds) => deltas_ok(ds@, *c),
            None => exists|p: Seq<char>| touches(*c, p) && (hunk_additions(c.hunks@, p) > usize::MAX
                || hunk_deletions(c.hunks@, p) > usize::MAX),
        },
{
    let mut ds: Vec<FileDelta> = Vec::new();
    let mut i: usize = 0;
    while i < c.delta_paths.len()
        invariant
            i <= c.delta_paths@.len(),
            forall|a: int, b: int| 0 <= a < b < ds@.len() ==> ds@[a].path@ != ds@[b].path@,
            forall|p: Seq<char>| #[trigger] path_among(c.delta_paths@, i as int, p) <==> has_delta(ds@, p),
            forall|k: int| 0 <= k < ds@.len() ==> #[trigger] ds@[k].additions == 0 && ds@[k].deletions == 0,
        decreases c.delta_paths@.len() - i,
    {
        let ghost before = ds@;
        let ghost entry = c.delta_paths@[i as int];
        if let Some(q) = &c.delta_paths[i] {
            if find_delta(&ds, q).is_none() {
                ds.push(FileDelta { path: q.clone(), additions: 0, deletions: 0 });
                assert(ds@[before.len() as int].path@ == q@);
            }
            assert(has_delta(ds@, q@));
        }
        assert(entry is Some ==> has_delta(ds@, entry->0@));
        proof {
            assert forall|p: Seq<char>| has_delta(before, p) implies has_delta(ds@, p) by {
                let k = choose|k: int| 0 <= k < before.len() && #[trigger] before[k].path@ == p;
                assert(ds@[k] == before[k]);
            }
            assert forall|p: Seq<char>| #[trigger] path_among(c.delta_paths@, i + 1, p) <==> has_delta(ds@, p) by {
                if path_among(c.delta_paths@, i + 1, p) {
                    let k = choose|k: int| 0 <= k < i + 1 && path_is(#[trigger] c.delta_paths@[k], p);
                    if k < i {
                        assert(path_is(c.delta_paths@[k], p));
                        assert(path_among(c.delta_paths@, i as int, p));
                        assert(has_delta(before, p));
                    } else {
                        assert(k == i);
                        assert(path_is(entry, p));
                        assert(entry is Some);
                        assert(entry->0@ == p);
                    }
                    assert(has_delta(ds@, p));
                }
                if has_delta(ds@, p) {
                    let k = choose|k: int| 0 <= k < ds@.len() && #[trigger] ds@[k].path@ == p;
                    if k < before.len() {
                        assert(before[k].path@ == p);
                        assert(path_among(c.delta_paths@, i as int, p));
                        let m = choose|m: int| 0 <= m < i && path_is(#[trigger] c.delta_paths@[m], p);
                        assert(path_is(c.delta_paths@[m], p));
                    } else {
                        assert(path_is(c.delta_paths@[i as int], p));
                    }
                }
            }
        }
        i = i + 1;
    }
    assert forall|m: int| 0 <= m < ds@.len() implies {
        &&& #[trigger] ds@[m].additions == hunk_additions(c.hunks@.take(0), ds@[m].path@)
        &&& ds@[m].deletions == hunk_deletions(c.hunks@.take(0), ds@[m].path@)
    } by {
        assert(c.hunks@.take(0).len() == 0);
    }
    let mut j: usize = 0;
    while j < c.hunks.len()
        invariant
            j <= c.hunks@.len(),
            deltas_ok_upto(ds@, *c, j as int),
        decreases c.hunks@.len() - j,
    {
        let h = &c.hunks[j];
        let hp: String = match &h.path {
            Some(p) => p.clone(),
            None => String::new(),
        };
        assert(hp@ == hunk_path(c.hunks@[j as int]));
        assert(c.hunks@.take(j + 1).drop_last() =~= c.hunks@.take(j as int));
        assert(c.hunks@.take(j + 1).last() == c.hunks@[j as int]);
        let ghost before = ds@;
        match find_delta(&ds, &hp) {
            Some(k) => {
                let added = ds[k].additions.checked_add(h.new_lines as usize);
                let removed = ds[k].deletions.checked_add(h.old_lines as usize);
                match (added, removed) {
                    (Some(a), Some(d)) => {
                        let path = ds[k].path.clone();
                        ds.set(k, FileDelta { path, additions: a, deletions: d });
                        proof {
                            assert forall|m: int| 0 <= m < ds@.len() implies #[trigger] ds@[m].path@ == before[m].path@ by {}
                            assert forall|x: int, y: int| 0 <= x < y < ds@.len() implies ds@[x].path@ != ds@[y].path@ by {
                                assert(ds@[x].path@ == before[x].path@);
                                assert(ds@[y].path@ == before[y].path@);
                            }
                            assert forall|m: int| 0 <= m < ds@.len() implies {
                                &&& #[trigger] ds@[m].additions == hunk_additions(c.hunks@.take(j + 1), ds@[m].path@)
                                &&& ds@[m].deletions == hunk_deletions(c.hunks@.take(j + 1), ds@[m].path@)
                            } by {
                                assert(ds@[m].path@ == before[m].path@);
                                lemma_hunk_step(c.hunks@, j as int, ds@[m].path@);
                                if m != k {
                                    assert(before[m].path@ != hp@);
                                }
                            }
                            assert forall|p: Seq<char>| has_delta(before, p) <==> has_delta(ds@, p) by {
                                if has_delta(before, p) {
                                    let m = choose|m: int| 0 <= m < before.len() && #[trigger] before[m].path@ == p;
                                    assert(ds@[m].path@ == p);
                                }
                                if has_delta(ds@, p) {
                                    let m = choose|m: int| 0 <= m < ds@.len() && #[trigger] ds@[m].path@ == p;
                                    assert(before[m].path@ == p);
                                }
                            }
                            assert forall|p: Seq<char>| #[trigger] touches(*c, p) <==> has_delta(ds@, p) by {
                                assert(touches(*c, p) <==> has_delta(before, p));
                            }
                        }
                    },
                    _ => {
                        proof {
                            let p = ds@[k as int].path@;
                            lemma_hunk_sums_grow(c.hunks@, j as int + 1, p);
                            assert(has_delta(ds@, p));
                            assert(touches(*c, p));
                        }
                        return None;
                    },
                }
            },
            None => {
                proof {
                    assert forall|m: int| 0 <= m < ds@.len() implies {
                        &&& #[trigger] ds@[m].additions == hunk_additions(c.hunks@.take(j + 1), ds@[m].path@)
                        &&& ds@[m].deletions == hunk_deletions(c.hunks@.take(j + 1), ds@[m].path@)
                    } by {
                        assert(ds@[m].path@ != hp@);
                        assert(ds@[m].additions == hunk_additions(c.hunks@.take(j as int), ds@[m].path@));
                        assert(ds@[m].deletions == hunk_deletions(c.hunks@.take(j as int), ds@[m].path@));
                        lemma_hunk_step(c.hunks@, j as int, ds@[m].path@);
                    }
                }
            },
        }
        assert(forall|a: int, b: int| 0 <= a < b < ds@.len() ==> ds@[a].path@ != ds@[b].path@);
        assert(forall|p: Seq<char>| #[trigger] touches(*c, p) <==> has_delta(ds@, p));
        assert(forall|k: int| 0 <= k < ds@.len() ==> {
            &&& #[trigger] ds@[k].additions == hunk_additions(c.hunks@.take(j + 1), ds@[k].path@)
            &&& ds@[k].deletions == hunk_deletions(c.hunks@.take(j + 1), ds@[k].path@)
        });
        j = j + 1;
    }
    assert(c.hunks@.take(c.hunks@.len() as int) =~= c.hunks@);
    Some(ds)
}

/// `deltas_ok` for the first `j` hunks.
pub open spec fn deltas_ok_upto(ds: Seq<FileDelta>, c: CommitRecord, j: int) -> bool {
    &&& forall|a: int, b: int| 0 <= a < b < ds.len() ==> ds[a].path@ != ds[b].path@
    &&& forall|p: Seq<char>| #[trigger] touches(c, p) <==> has_delta(ds, p)
    &&& forall|k: int| 0 <= k < ds.len() ==> {
        &&& #[trigger] ds[k].additions == hunk_additions(c.hunks@.take(j), ds[k].path@)
        &&& ds[k].deletions == hunk_deletions(c.hunks@.take(j), ds[k].path@)
    }
}

proof fn lemma_hunk_step(hs: Seq<HunkLines>, j: int, p: Seq<char>)
    requires
        0 <= j < hs.len(),
    ensures
        hunk_additions(hs.take(j + 1), p) == hunk_additions(hs.take(j), p) + if hunk_path(hs[j]) == p {
            hs[j].new_lines as nat
        } else {
            0
        },
        hunk_deletions(hs.take(j + 1), p) == hunk_deletions(hs.take(j), p) + if hunk_path(hs[j]) == p {
            hs[j].old_lines as nat
        } else {
            0
        },
{
    assert(hs.take(j + 1).drop_last() =~= hs.take(j));
    assert(hs.take(j + 1).last() == hs[j]);
}

proof fn lemma_hunk_sums_grow(hs: Seq<HunkLines>, j: int, p: Seq<char>)
    requires
        0 <= j <= hs.len(),
    ensures
        hunk_additions(hs.take(j), p) <= hunk_additions(hs, p),
        hunk_deletions(hs.take(j), p) <= hunk_deletions(hs, p),
    decreases hs.len() - j,
{
    if j == hs.len() {
        assert(hs.take(j) =~= hs);
    } else {
        lemma_hunk_sums_grow(hs, j + 1, p);
        assert(hs.take(j + 1).drop_last() =~= hs.take(j));
    }
}

// ─── Totals over the commits read so far ────────────────────────────────────

/// The day of a timestamp, as `ts / 86400` counts it.
pub open spec fn day_number(ts: i64) -> int {
    div_toward_zero(ts as int, 86400)
}

/// The hour of the day (0–23, UTC) of a timestamp.
pub open spec fn hour_of(ts: i64) -> int {
    (ts as int % 86400) / 3600
}

/// The day of the week (Monday = 0) of a timestamp; 1970-01-01 was a Thursday.
pub open spec fn weekday_of(ts: i64) -> int {
    (day_number(ts) + 3) % 7
}

pub open spec fn commits_by(h: Seq<CommitRecord>, n: Seq<char>) -> nat
    decreases h.len(),
{
    if h.len() == 0 {
        0
    } else {
        commits_by(h.drop_last(), n) + if author_name(h.last()) == n { 1nat } else { 0nat }
    }
}

pub open spec fn insertions_by(h: Seq<CommitRecord>, n: Seq<char>) -> nat
    decreases h.len(),
{
    if h.len() == 0 {
        0
    } else {
        insertions_by(h.drop_last(), n) + if author_name(h.last()) == n {
            h.last().insertions as nat
        } else {
            0nat
        }
    }
}

pub open spec fn deletions_by(h: Seq<CommitRecord>, n: Seq<char>) -> nat
    decreases h.len(),
{
    if h.len() == 0 {
        0
    } else {
        deletions_by(h.drop_last(), n) + if author_name(h.last()) == n {
            h.last().deletions as nat
        } else {
            0nat
        }
    }
}

/// Whether a commit of `h` by `n` touches path `p`.
pub open spec fn wrote(h: Seq<CommitRecord>, n: Seq<char>, p: Seq<char>) -> bool
    decreases h.len(),
{
    if h.len() == 0 {
        false
    } else {
        wrote(h.drop_last(), n, p) || (author_name(h.last()) == n && touches(h.last(), p))
    }
}

/// The number of commits of `h` that touch path `p`.
pub open spec fn changes_of(h: Seq<CommitRecord>, p: Seq<char>) -> nat
    decreases h.len(),
{
    if h.len() == 0 {
        0
    } else {
        changes_of(h.drop_last(), p) + if touches(h.last(), p) { 1nat } else { 0nat }
    }
}

pub open spec fn additions_to(h: Seq<CommitRecord>, p: Seq<char>) -> nat
    decreases h.len(),
{
    if h.len() == 0 {
        0
    } else {
        additions_to(h.drop_last(), p) + if touches(h.last(), p) {
            hunk_additions(h.last().hunks@, p)
        } else {
            0nat
        }
    }
}

pub open spec fn deletions_from(h: Seq<CommitRecord>, p: Seq<char>) -> nat
    decreases h.len(),
{
    if h.len() == 0 {
        0
    } else {
        deletions_from(h.drop_last(), p) + if touches(h.last(), p) {
            hunk_deletions(h.last().hunks@, p)
        } else {
            0nat
        }
    }
}

/// The number of commits of `h` on weekday `w` in hour `hr`.
pub open spec fn heat_count(h: Seq<CommitRecord>, w: int, hr: int) -> nat
    decreases h.len(),
{
    if h.len() == 0 {
        0
    } else {
        heat_count(h.drop_last(), w, hr) + if weekday_of(h.last().time) == w && hour_of(h.last().time) == hr {
            1nat
        } else {
            0nat
        }
    }
}

/// The number of commits of `h` on day `d`.
pub open spec fn day_count(h: Seq<CommitRecord>, d: int) -> nat
    decreases h.len(),
{
    if h.len() == 0 {
        0
    } else {
        day_count(h.drop_last(), d) + if day_number(h.last().time) == d { 1nat } else { 0nat }
    }
}

/// The time and summary of the first commit of `h` with the smallest time
/// (`i64::MAX` and empty where none is smaller).
pub open spec fn earliest(h: Seq<CommitRecord>) -> (i64, Seq<char>)
    decreases h.len(),
{
    if h.len() == 0 {
        (i64::MAX, Seq::empty())
    } else {
        let e = earliest(h.drop_last());
        if h.last().time < e.0 {
            (h.last().time, summary_text(h.last()))
        } else {
            e
        }
    }
}

/// The time and summary of the first commit of `h` with the largest time
/// (`i64::MIN` and empty where none is larger).
pub open spec fn latest(h: Seq<CommitRecord>) -> (i64, Seq<char>)
    decreases h.len(),
{
    if h.len() == 0 {
        (i64::MIN, Seq::empty())
    } else {
        let e = latest(h.drop_last());
        if h.last().time > e.0 {
            (h.last().time, summary_text(h.last()))
        } else {
            e
        }
    }
}

} // verus!
