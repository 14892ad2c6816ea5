use vstd::prelude::*;
use crate::calendar::{date_text, fmt_ts};
use crate::gitanalyzer::{
    additions_to, author_name, changes_of, commit_files, commits_by, day_count, day_number,
    deletions_by, deletions_from, deltas_ok, earliest, has_delta, heat_count, hour_of,
    hunk_additions, hunk_deletions, insertions_by, latest, summary_text, touches, weekday_of,
    wrote, AuthorStats, CommitRecord, FileDelta, FileStats, GitStats,
};
use crate::order::{is_permutation, occurs, order_desc, sorted_desc};
use crate::text::{chars_of, string_from};

verus! {

/// The strings of `v` are pairwise different.
pub open spec fn distinct(v: Seq<String>) -> bool {
    forall|i: int, j: int| 0 <= i < j < v.len() ==> v[i]@ != v[j]@
}

/// One of the strings of `v` is `x`.
pub open spec fn listed(v: Seq<String>, x: Seq<char>) -> bool {
    exists|k: int| 0 <= k < v.len() && #[trigger] v[k]@ == x
}

/// What the commits read so far give one author.
pub struct AuthorEntry {
    pub name: String,
    pub commits: usize,
    pub additions: usize,
    pub deletions: usize,
    /// the paths the author's commits touched, each once
    pub paths: Vec<String>,
}

/// What the commits read so far give one file.
pub struct FileEntry {
    pub path: String,
    pub changes: usize,
    pub additions: usize,
    pub deletions: usize,
    /// the authors of the commits that touched the file, each once
    pub names: Vec<String>,
}

/// The number of commits read so far on one day.
pub struct DayCount {
    pub day: i64,
    pub count: usize,
}

pub open spec fn author_ok(e: AuthorEntry, h: Seq<CommitRecord>) -> bool {
    &&& e.commits == commits_by(h, e.name@)
    &&& e.commits > 0
    &&& e.additions == insertions_by(h, e.name@)
    &&& e.deletions == deletions_by(h, e.name@)
    &&& distinct(e.paths@)
    &&& forall|p: Seq<char>| #[trigger] listed(e.paths@, p) <==> wrote(h, e.name@, p)
}

pub open spec fn has_author(v: Seq<AuthorEntry>, n: Seq<char>) -> bool {
    exists|k: int| 0 <= k < v.len() && #[trigger] v[k].name@ == n
}

/// One entry for each author of `h`, with that author's totals.
pub open spec fn authors_ok(v: Seq<AuthorEntry>, h: Seq<CommitRecord>) -> bool {
    &&& forall|i: int, j: int| 0 <= i < j < v.len() ==> v[i].name@ != v[j].name@
    &&& forall|i: int| 0 <= i < v.len() ==> #[trigger] author_ok(v[i], h)
    &&& forall|n: Seq<char>| #[trigger] has_author(v, n) <==> commits_by(h, n) > 0
}

pub open spec fn file_ok(e: FileEntry, h: Seq<CommitRecord>) -> bool {
    &&& e.changes == changes_of(h, e.path@)
    &&& e.changes > 0
    &&& e.additions == additions_to(h, e.path@)
    &&& e.deletions == deletions_from(h, e.path@)
    &&& distinct(e.names@)
    &&& forall|n: Seq<char>| #[trigger] listed(e.names@, n) <==> wrote(h, n, e.path@)
}

pub open spec fn has_file(v: Seq<FileEntry>, p: Seq<char>) -> bool {
    exists|k: int| 0 <= k < v.len() && #[trigger] v[k].path@ == p
}

/// One entry for each path that a commit of `h` touches, with that path's totals.
pub open spec fn files_ok(v: Seq<FileEntry>, h: Seq<CommitRecord>) -> bool {
    &&& forall|i: int, j: int| 0 <= i < j < v.len() ==> v[i].path@ != v[j].path@
    &&& forall|i: int| 0 <= i < v.len() ==> #[trigger] file_ok(v[i], h)
    &&& forall|p: Seq<char>| #[trigger] has_file(v, p) <==> changes_of(h, p) > 0
}

/// `heat[w * 24 + hr]` counts the commits of `h` on weekday `w` in hour `hr`.
pub open spec fn heat_ok(heat: Seq<usize>, h: Seq<CommitRecord>) -> bool {
    &&& heat.len() == 168
    &&& forall|w: int, hr: int| 0 <= w < 7 && 0 <= hr < 24 ==> #[trigger] heat[w * 24 + hr] == heat_count(h, w, hr)
}

pub open spec fn has_day(v: Seq<DayCount>, d: int) -> bool {
    exists|k: int| 0 <= k < v.len() && #[trigger] v[k].day == d
}

/// One entry for each day with a commit of `h`, with its number of commits.
pub open spec fn days_ok(v: Seq<DayCount>, h: Seq<CommitRecord>) -> bool {
    &&& forall|i: int, j: int| 0 <= i < j < v.len() ==> v[i].day != v[j].day
    &&& forall|i: int| 0 <= i < v.len() ==> #[trigger] v[i].count == day_count(h, v[i].day as int)
    &&& forall|d: int| #[trigger] has_day(v, d) <==> day_count(h, d) > 0
}

fn is_listed(v: &Vec<String>, x: &String) -> (r: bool)
    ensures
        r == listed(v@, x@),
{
    let mut i: usize = 0;
    while i < v.len()
        invariant
            i <= v@.len(),
            forall|k: int| 0 <= k < i ==> v@[k]@ != x@,
        decreases v@.len() - i,
    {
        if v[i] == *x {
            assert(v@[i as int]@ == x@);
            return true;
        }
        i = i + 1;
    }
    false
}

/// Adds to `v` each of `ds`'s paths that it does not list yet.
fn merge_paths(v: &mut Vec<String>, ds: &Vec<FileDelta>)
    requires
        distinct(old(v)@),
    ensures
        distinct(final(v)@),
        forall|p: Seq<char>| #[trigger] listed(final(v)@, p) <==> listed(old(v)@, p) || has_delta(ds@, p),
{
    let mut m: usize = 0;
    while m < ds.len()
        invariant
            m <= ds@.len(),
            distinct(v@),
            forall|p: Seq<char>| #[trigger] listed(v@, p) <==> listed(old(v)@, p) || has_delta(ds@.take(m as int), p),
        decreases ds@.len() - m,
    {
        let ghost before = v@;
        let p = &ds[m].path;
        if !is_listed(v, p) {
            v.push(p.clone());
        }
        proof {
            assert(listed(v@, p@)) by {
                if !listed(before, p@) {
                    assert(v@[before.len() as int]@ == p@);
                }
            }
            assert forall|q: Seq<char>| listed(before, q) implies listed(v@, q) by {
                let k = choose|k: int| 0 <= k < before.len() && #[trigger] before[k]@ == q;
                assert(v@[k]@ == q);
            }
            assert forall|q: Seq<char>| #[trigger] listed(v@, q) <==> listed(old(v)@, q) || has_delta(ds@.take(m + 1), q) by {
                assert(listed(before, q) <==> listed(old(v)@, q) || has_delta(ds@.take(m as int), q));
                if has_delta(ds@.take(m + 1), q) {
                    let k = choose|k: int| 0 <= k < m + 1 && #[trigger] ds@.take(m + 1)[k].path@ == q;
                    if k < m {
                        assert(ds@.take(m as int)[k].path@ == q);
                    }
                }
                if has_delta(ds@.take(m as int), q) {
                    let k = choose|k: int| 0 <= k < m && #[trigger] ds@.take(m as int)[k].path@ == q;
                    assert(ds@.take(m + 1)[k].path@ == q);
                }
                if listed(v@, q) {
                    let k = choose|k: int| 0 <= k < v@.len() && #[trigger] v@[k]@ == q;
                    if k < before.len() {
                        assert(listed(before, q));
                    } else {
                        assert(ds@.take(m + 1)[m as int].path@ == q);
                    }
                }
            }
        }
        m = m + 1;
    }
    assert(ds@.take(ds@.len() as int) =~= ds@);
}

fn find_author(v: &Vec<AuthorEntry>, n: &String) -> (r: Option<usize>)
    ensures
        match r {
            Some(k) => k < v@.len() && v@[k as int].name@ == n@,
            None => !has_author(v@, n@),
        },
{
    let mut i: usize = 0;
    while i < v.len()
        invariant
            i <= v@.len(),
            forall|k: int| 0 <= k < i ==> v@[k].name@ != n@,
        decreases v@.len() - i,
    {
        if v[i].name == *n {
            return Some(i);
        }
        i = i + 1;
    }
    None
}

fn find_file(v: &Vec<FileEntry>, p: &String) -> (r: Option<usize>)
    ensures
        match r {
            Some(k) => k < v@.len() && v@[k as int].path@ == p@,
            None => !has_file(v@, p@),
        },
{
    let mut i: usize = 0;
    while i < v.len()
        invariant
            i <= v@.len(),
            forall|k: int| 0 <= k < i ==> v@[k].path@ != p@,
        decreases v@.len() - i,
    {
        if v[i].path == *p {
            return Some(i);
        }
        i = i + 1;
    }
    None
}

proof fn lemma_push_unfolds(h: Seq<CommitRecord>, c: CommitRecord)
    ensures
        h.push(c).drop_last() == h,
        h.push(c).last() == c,
        h.push(c).len() > 0,
{
    assert(h.push(c).drop_last() =~= h);
}

/// Counts commit `c`, whose file deltas are `ds`, for its author `name`.
fn apply_author(
    authors: &mut Vec<AuthorEntry>,
    ai: Option<usize>,
    name: String,
    c: &CommitRecord,
    ds: &Vec<FileDelta>,
    Ghost(h): Ghost<Seq<CommitRecord>>,
)
    requires
        authors_ok(old(authors)@, h),
        name@ == author_name(*c),
        deltas_ok(ds@, *c),
        match ai {
            Some(k) => k < old(authors)@.len() && old(authors)@[k as int].name@ == name@,
            None => !has_author(old(authors)@, name@),
        },
        commits_by(h.push(*c), name@) <= usize::MAX,
        insertions_by(h.push(*c), name@) <= usize::MAX,
        deletions_by(h.push(*c), name@) <= usize::MAX,
    ensures
        authors_ok(final(authors)@, h.push(*c)),
{
    let ghost h2 = h.push(*c);
    proof {
        lemma_push_unfolds(h, *c);
    }
    let ghost before = authors@;
    match ai {
        Some(k) => {
            assert(author_ok(before[k as int], h));
            let e = &authors[k];
            let mut paths = e.paths.clone();
            let ghost old_paths = e.paths@;
            assert(paths@ =~= old_paths);
            merge_paths(&mut paths, ds);
            let entry = AuthorEntry {
                name: name,
                commits: e.commits + 1,
                additions: e.additions + c.insertions,
                deletions: e.deletions + c.deletions,
                paths,
            };
            authors.set(k, entry);
            proof {
                assert(author_ok(authors@[k as int], h2)) by {
                    assert forall|p: Seq<char>| #[trigger] listed(authors@[k as int].paths@, p) <==> wrote(h2, authors@[k as int].name@, p) by {
                        assert(listed(old_paths, p) <==> wrote(h, name@, p));
                        assert(touches(*c, p) <==> has_delta(ds@, p));
                    }
                }
            }
        },
        None => {
            let mut paths: Vec<String> = Vec::new();
            merge_paths(&mut paths, ds);
            proof {
                assert(!has_author(before, name@));
                assert(commits_by(h, name@) == 0);
                assert forall|p: Seq<char>| #[trigger] listed(paths@, p) <==> wrote(h2, name@, p) by {
                    lemma_no_commits_by_p(h, name@, p);
                    assert(touches(*c, p) <==> has_delta(ds@, p));
                    if listed(paths@, p) {
                        assert(listed(Seq::<String>::empty(), p) == false);
                    }
                }
                lemma_no_commits_by_p(h, name@, Seq::empty());
            }
            let ghost new_paths = paths@;
            let entry = AuthorEntry {
                name: name,
                commits: 1,
                additions: c.insertions,
                deletions: c.deletions,
                paths,
            };
            authors.push(entry);
            proof {
                let e2 = authors@[before.len() as int];
                assert(e2.paths@ == new_paths);
                assert(e2.commits == commits_by(h2, e2.name@));
                assert(e2.additions == insertions_by(h2, e2.name@));
                assert(e2.deletions == deletions_by(h2, e2.name@));
                assert(author_ok(e2, h2));
            }
        },
    }
    proof {
        let v = authors@;
        assert forall|i: int| 0 <= i < v.len() && v[i].name@ != author_name(*c) implies v[i] == before[i] by {}
        assert forall|i: int| 0 <= i < v.len() implies #[trigger] author_ok(v[i], h2) by {
            if v[i].name@ == author_name(*c) {
                match ai {
                    Some(k) => {
                        if i != k {
                            assert(v[i] == before[i]);
                            assert(before[i].name@ == before[k as int].name@);
                        }
                    },
                    None => {
                        if i < before.len() {
                            assert(v[i] == before[i]);
                            assert(has_author(before, name@));
                        }
                    },
                }
            }
            if v[i].name@ != author_name(*c) {
                assert(v[i] == before[i]);
                assert(author_ok(before[i], h));
                let n = v[i].name@;
                assert forall|p: Seq<char>| #[trigger] listed(v[i].paths@, p) <==> wrote(h2, n, p) by {
                    assert(listed(before[i].paths@, p) <==> wrote(h, n, p));
                }
            }
        }
        assert forall|i: int, j: int| 0 <= i < j < v.len() implies v[i].name@ != v[j].name@ by {
            if v[i].name@ != author_name(*c) && v[j].name@ != author_name(*c) {
                assert(v[i] == before[i]);
                assert(v[j] == before[j]);
            } else if v[i].name@ == author_name(*c) {
                if v[j].name@ == author_name(*c) {
                    match ai {
                        Some(k) => {
                            if i != k {
                                assert(before[i].name@ == v[i].name@);
                            } else {
                                assert(before[j].name@ == v[j].name@);
                            }
                            assert(false);
                        },
                        None => {
                            if j < before.len() {
                                assert(has_author(before, name@));
                            } else {
                                assert(before[i].name@ == v[i].name@);
                                assert(has_author(before, name@));
                            }
                        },
                    }
                }
            }
        }
        assert forall|n: Seq<char>| #[trigger] has_author(v, n) <==> commits_by(h2, n) > 0 by {
            if n == author_name(*c) {
                match ai {
                    Some(k) => assert(v[k as int].name@ == n),
                    None => assert(v[before.len() as int].name@ == n),
                }
            } else {
                if has_author(v, n) {
                    let k = choose|k: int| 0 <= k < v.len() && #[trigger] v[k].name@ == n;
                    assert(before[k].name@ == n);
                    assert(has_author(before, n));
                }
                if has_author(before, n) {
                    let k = choose|k: int| 0 <= k < before.len() && #[trigger] before[k].name@ == n;
                    assert(v[k].name@ == n);
                }
            }
        }
    }
}

/// `file_ok` for `h` followed by a commit by `name` that touches `e`'s path
/// exactly when `inc`, with those line counts.
pub open spec fn file_ok_with(
    e: FileEntry,
    h: Seq<CommitRecord>,
    c: CommitRecord,
    name: Seq<char>,
    inc: bool,
) -> bool {
    let p = e.path@;
    &&& e.changes == changes_of(h, p) + if inc { 1nat } else { 0nat }
    &&& e.changes > 0
    &&& e.additions == additions_to(h, p) + if inc { hunk_additions(c.hunks@, p) } else { 0nat }
    &&& e.deletions == deletions_from(h, p) + if inc { hunk_deletions(c.hunks@, p) } else { 0nat }
    &&& distinct(e.names@)
    &&& forall|n: Seq<char>| #[trigger] listed(e.names@, n) <==> wrote(h, n, p) || (inc && n == name)
}

/// Counts commit `c`, whose file deltas are `ds`, for each file it touches.
fn apply_files(
    files: &mut Vec<FileEntry>,
    name: &String,
    c: &CommitRecord,
    ds: &Vec<FileDelta>,
    Ghost(h): Ghost<Seq<CommitRecord>>,
)
    requires
        files_ok(old(files)@, h),
        name@ == author_name(*c),
        deltas_ok(ds@, *c),
        forall|p: Seq<char>| #[trigger] touches(*c, p) ==> {
            &&& changes_of(h.push(*c), p) <= usize::MAX
            &&& additions_to(h.push(*c), p) <= usize::MAX
            &&& deletions_from(h.push(*c), p) <= usize::MAX
        },
    ensures
        files_ok(final(files)@, h.push(*c)),
{
    let ghost h2 = h.push(*c);
    proof {
        lemma_push_unfolds(h, *c);
        assert(ds@.take(0) =~= Seq::<FileDelta>::empty());
        assert forall|i: int| 0 <= i < files@.len() implies #[trigger] file_ok_with(files@[i], h, *c, name@, has_delta(ds@.take(0), files@[i].path@)) by {
            assert(file_ok(files@[i], h));
        }
    }
    let mut m: usize = 0;
    while m < ds.len()
        invariant
            m <= ds@.len(),
            h2 == h.push(*c),
            name@ == author_name(*c),
            deltas_ok(ds@, *c),
            forall|p: Seq<char>| #[trigger] touches(*c, p) ==> {
                &&& changes_of(h2, p) <= usize::MAX
                &&& additions_to(h2, p) <= usize::MAX
                &&& deletions_from(h2, p) <= usize::MAX
            },
            forall|i: int, j: int| 0 <= i < j < files@.len() ==> files@[i].path@ != files@[j].path@,
            forall|i: int| 0 <= i < files@.len() ==> #[trigger] file_ok_with(files@[i], h, *c, name@,
                has_delta(ds@.take(m as int), files@[i].path@)),
            forall|p: Seq<char>| #[trigger] has_file(files@, p) <==> changes_of(h, p) > 0
                || has_delta(ds@.take(m as int), p),
        decreases ds@.len() - m,
    {
        let ghost before = files@;
        let d = &ds[m];
        let ghost q = d.path@;
        proof {
            lemma_push_unfolds(h, *c);
            assert(has_delta(ds@, q));
            assert(touches(*c, q));
            assert(!has_delta(ds@.take(m as int), q)) by {
                if has_delta(ds@.take(m as int), q) {
                    let k = choose|k: int| 0 <= k < m && #[trigger] ds@.take(m as int)[k].path@ == q;
                    assert(ds@[k].path@ == ds@[m as int].path@);
                }
            }
            assert(d.additions == hunk_additions(c.hunks@, q));
            assert(d.deletions == hunk_deletions(c.hunks@, q));
        }
        match find_file(files, &d.path) {
            Some(k) => {
                assert(file_ok_with(before[k as int], h, *c, name@, has_delta(ds@.take(m as int), before[k as int].path@)));
                assert(file_ok_with(before[k as int], h, *c, name@, false));
                let e = &files[k];
                let mut names = e.names.clone();
                assert(names@ =~= e.names@);
                if !is_listed(&names, name) {
                    names.push(name.clone());
                }
                let entry = FileEntry {
                    path: d.path.clone(),
                    changes: e.changes + 1,
                    additions: e.additions + d.additions,
                    deletions: e.deletions + d.deletions,
                    names,
                };
                files.set(k, entry);
                proof {
                    let e2 = files@[k as int];
                    assert(distinct(e2.names@)) by {
                        if !listed(before[k as int].names@, name@) {
                            assert forall|x: int, y: int| 0 <= x < y < e2.names@.len() implies e2.names@[x]@ != e2.names@[y]@ by {
                                if y == e2.names@.len() - 1 {
                                    assert(e2.names@[x] == before[k as int].names@[x]);
                                    if e2.names@[x]@ == name@ {
                                        assert(listed(before[k as int].names@, name@));
                                    }
                                }
                            }
                        }
                    }
                    assert forall|n: Seq<char>| #[trigger] listed(e2.names@, n) <==> wrote(h, n, q) || (true && n == name@) by {
                        let old_names = before[k as int].names@;
                        assert(listed(old_names, n) <==> wrote(h, n, q) || (false && n == name@));
                        if listed(e2.names@, n) {
                            let j = choose|j: int| 0 <= j < e2.names@.len() && #[trigger] e2.names@[j]@ == n;
                            if j < old_names.len() {
                                assert(old_names[j]@ == n);
                            }
                        }
                        if listed(old_names, n) {
                            let j = choose|j: int| 0 <= j < old_names.len() && #[trigger] old_names[j]@ == n;
                            assert(e2.names@[j]@ == n);
                        }
                        if n == name@ && !listed(old_names, n) {
                            assert(e2.names@[old_names.len() as int]@ == n);
                        }
                        if n == name@ && listed(old_names, n) {
                            let j = choose|j: int| 0 <= j < old_names.len() && #[trigger] old_names[j]@ == n;
                            assert(e2.names@[j]@ == n);
                        }
                    }
                }
            },
            None => {
                proof {
                    assert(!has_file(before, q));
                    assert(changes_of(h, q) == 0);
                    lemma_no_changes_of_all(h, q);
                }
                let mut names: Vec<String> = Vec::new();
                names.push(name.clone());
                let entry = FileEntry {
                    path: d.path.clone(),
                    changes: 1,
                    additions: d.additions,
                    deletions: d.deletions,
                    names,
                };
                files.push(entry);
                proof {
                    let e2 = files@[before.len() as int];
                    assert forall|n: Seq<char>| #[trigger] listed(e2.names@, n) <==> wrote(h, n, q) || (true && n == name@) by {
                        if listed(e2.names@, n) {
                            let j = choose|j: int| 0 <= j < e2.names@.len() && #[trigger] e2.names@[j]@ == n;
                            assert(j == 0);
                        }
                        if n == name@ {
                            assert(e2.names@[0]@ == n);
                        }
                    }
                }
            },
        }
        proof {
            let v = files@;
            assert forall|p: Seq<char>| #[trigger] has_delta(ds@.take(m + 1), p) <==> has_delta(ds@.take(m as int), p) || p == q by {
                if has_delta(ds@.take(m + 1), p) {
                    let k = choose|k: int| 0 <= k < m + 1 && #[trigger] ds@.take(m + 1)[k].path@ == p;
                    if k < m {
                        assert(ds@.take(m as int)[k].path@ == p);
                    }
                }
                if has_delta(ds@.take(m as int), p) {
                    let k = choose|k: int| 0 <= k < m && #[trigger] ds@.take(m as int)[k].path@ == p;
                    assert(ds@.take(m + 1)[k].path@ == p);
                }
                if p == q {
                    assert(ds@.take(m + 1)[m as int].path@ == p);
                }
            }
            assert forall|i: int| 0 <= i < v.len() && v[i].path@ != q implies v[i] == before[i] by {}
            assert forall|i: int| 0 <= i < v.len() implies #[trigger] file_ok_with(v[i], h, *c, name@,
                has_delta(ds@.take(m + 1), v[i].path@)) by {
                if v[i].path@ != q {
                    assert(v[i] == before[i]);
                    assert(file_ok_with(before[i], h, *c, name@, has_delta(ds@.take(m as int), before[i].path@)));
                }
            }
            assert forall|i: int, j: int| 0 <= i < j < v.len() implies v[i].path@ != v[j].path@ by {
                if v[i].path@ == q && v[j].path@ == q {
                    if j < before.len() {
                        assert(before[i].path@ == v[i].path@ || v[i].path@ == q);
                    }
                    assert(has_file(before, q) || (i < before.len() && j == before.len()));
                    if i < before.len() {
                        assert(before[i].path@ == q || v[i] != before[i]);
                    }
                }
                if v[i].path@ != q {
                    assert(v[i] == before[i]);
                }
                if v[j].path@ != q {
                    assert(v[j] == before[j]);
                }
            }
            assert forall|p: Seq<char>| #[trigger] has_file(v, p) <==> changes_of(h, p) > 0
                || has_delta(ds@.take(m + 1), p) by {
                if p == q {
                    if has_file(before, q) {
                        let k = choose|k: int| 0 <= k < before.len() && #[trigger] before[k].path@ == q;
                        assert(v[k].path@ == q);
                    } else {
                        assert(v[before.len() as int].path@ == q);
                    }
                } else {
                    if has_file(v, p) {
                        let k = choose|k: int| 0 <= k < v.len() && #[trigger] v[k].path@ == p;
                        assert(before[k].path@ == p);
                    }
                    if has_file(before, p) {
                        let k = choose|k: int| 0 <= k < before.len() && #[trigger] before[k].path@ == p;
                        assert(v[k].path@ == p);
                    }
                }
            }
        }
        m = m + 1;
    }
    proof {
        assert(ds@.take(ds@.len() as int) =~= ds@);
        let v = files@;
        assert forall|i: int| 0 <= i < v.len() implies #[trigger] file_ok(v[i], h2) by {
            let p = v[i].path@;
            assert(file_ok_with(v[i], h, *c, name@, has_delta(ds@, p)));
            assert(touches(*c, p) <==> has_delta(ds@, p));
            assert forall|n: Seq<char>| #[trigger] listed(v[i].names@, n) <==> wrote(h2, n, p) by {
                assert(listed(v[i].names@, n) <==> wrote(h, n, p) || (has_delta(ds@, p) && n == name@));
            }
        }
        assert forall|p: Seq<char>| #[trigger] has_file(v, p) <==> changes_of(h2, p) > 0 by {
            assert(touches(*c, p) <==> has_delta(ds@, p));
        }
    }
}

proof fn lemma_no_changes_of_all(h: Seq<CommitRecord>, p: Seq<char>)
    requires
        changes_of(h, p) == 0,
    ensures
        additions_to(h, p) == 0,
        deletions_from(h, p) == 0,
        forall|n: Seq<char>| !wrote(h, n, p),
    decreases h.len(),
{
    if h.len() > 0 {
        lemma_no_changes_of_all(h.drop_last(), p);
        assert forall|n: Seq<char>| !wrote(h, n, p) by {
            assert(!wrote(h.drop_last(), n, p));
        }
    }
}

proof fn lemma_no_commits_by_p(h: Seq<CommitRecord>, n: Seq<char>, p: Seq<char>)
    requires
        commits_by(h, n) == 0,
    ensures
        insertions_by(h, n) == 0,
        deletions_by(h, n) == 0,
        !wrote(h, n, p),
    decreases h.len(),
{
    if h.len() > 0 {
        lemma_no_commits_by_p(h.drop_last(), n, p);
    }
}

/// Whether the analysis reports its progress before reading commit `i`
/// (counting from 0): once every 200 commits.
pub fn progress_due(i: usize) -> (due: bool)
    ensures
        due == (i % 200 == 0),
{
    i % 200 == 0
}

/// The totals of the commits of a repository read so far, as the analysis
/// gathers them one commit at a time.
pub struct GitTally {
    authors: Vec<AuthorEntry>,
    files: Vec<FileEntry>,
    heat: Vec<usize>,
    days: Vec<DayCount>,
    first_ts: i64,
    first_msg: String,
    last_ts: i64,
    last_msg: String,
    history: Ghost<Seq<CommitRecord>>,
}

impl GitTally {
    /// The commits read so far, in order.
    pub closed spec fn history(self) -> Seq<CommitRecord> {
        self.history@
    }

    pub closed spec fn wf(self) -> bool {
        let h = self.history@;
        &&& authors_ok(self.authors@, h)
        &&& files_ok(self.files@, h)
        &&& heat_ok(self.heat@, h)
        &&& days_ok(self.days@, h)
        &&& (self.first_ts, self.first_msg@) == earliest(h)
        &&& (self.last_ts, self.last_msg@) == latest(h)
    }

    /// Whether every total stays within `usize` when `c` is counted after `h`.
    pub open spec fn fits(h: Seq<CommitRecord>, c: CommitRecord) -> bool {
        let h2 = h.push(c);
        let n = author_name(c);
        &&& commits_by(h2, n) <= usize::MAX
        &&& insertions_by(h2, n) <= usize::MAX
        &&& deletions_by(h2, n) <= usize::MAX
        &&& forall|p: Seq<char>| #[trigger] touches(c, p) ==> {
            &&& changes_of(h2, p) <= usize::MAX
            &&& additions_to(h2, p) <= usize::MAX
            &&& deletions_from(h2, p) <= usize::MAX
        }
        &&& heat_count(h2, weekday_of(c.time), hour_of(c.time)) <= usize::MAX
        &&& day_count(h2, day_number(c.time)) <= usize::MAX
    }

    /// Counts commit `c`. Where a total would not fit in `usize`, nothing changes
    /// and the result is `false`.
    pub fn add_commit(&mut self, c: &CommitRecord) -> (ok: bool)
        requires
            old(self).wf(),
        ensures
            final(self).wf(),
            ok == Self::fits(old(self).history(), *c),
            ok ==> final(self).history() == old(self).history().push(*c),
            !ok ==> *final(self) == *old(self),
    {
        let ghost h = self.history@;
        let ghost h2 = h.push(*c);
        proof {
            lemma_push_unfolds(h, *c);
        }
        let ds = match commit_files(c) {
            Some(ds) => ds,
            None => {
                proof {
                    let p = choose|p: Seq<char>| touches(*c, p) && (hunk_additions(c.hunks@, p) > usize::MAX
                        || hunk_deletions(c.hunks@, p) > usize::MAX);
                    assert(touches(*c, p));
                }
                return false;
            },
        };
        let name: String = match &c.author {
            Some(n) => n.clone(),
            None => String::from_str("Unknown"),
        };
        assert(name@ == author_name(*c));
        // The author's totals.
        let ai = find_author(&self.authors, &name);
        let (commits, adds, dels) = match ai {
            Some(k) => {
                assert(author_ok(self.authors@[k as int], h));
                (self.authors[k].commits, self.authors[k].additions, self.authors[k].deletions)
            },
            None => {
                proof {
                    lemma_no_commits_by_p(h, name@, Seq::empty());
                }
                (0, 0, 0)
            },
        };
        assert(commits == commits_by(h, name@) && adds == insertions_by(h, name@) && dels == deletions_by(h, name@));
        if commits.checked_add(1).is_none() || adds.checked_add(c.insertions).is_none()
            || dels.checked_add(c.deletions).is_none() {
            return false;
        }
        // The files' totals.
        let mut m: usize = 0;
        while m < ds.len()
            invariant
                m <= ds@.len(),
                deltas_ok(ds@, *c),
                files_ok(self.files@, h),
                *self == *old(self),
                old(self).wf(),
                h == old(self).history(),
                h2 == h.push(*c),
                h2.drop_last() == h,
                h2.last() == *c,
                h2.len() > 0,
                forall|k: int| 0 <= k < m ==> {
                    &&& changes_of(h2, #[trigger] ds@[k].path@) <= usize::MAX
                    &&& additions_to(h2, ds@[k].path@) <= usize::MAX
                    &&& deletions_from(h2, ds@[k].path@) <= usize::MAX
                },
            decreases ds@.len() - m,
        {
            let d = &ds[m];
            proof {
                assert(has_delta(ds@, d.path@));
                assert(touches(*c, d.path@));
            }
            let (changes, fadds, fdels) = match find_file(&self.files, &d.path) {
                Some(k) => {
                    assert(file_ok(self.files@[k as int], h));
                    (self.files[k].changes, self.files[k].additions, self.files[k].deletions)
                },
                None => {
                    proof {
                        lemma_no_changes_of_all(h, d.path@);
                    }
                    (0, 0, 0)
                },
            };
            if changes.checked_add(1).is_none() || fadds.checked_add(d.additions).is_none()
                || fdels.checked_add(d.deletions).is_none() {
                proof {
                    assert(changes == changes_of(h, d.path@));
                    assert(!Self::fits(h, *c)) by {
                        assert(touches(*c, d.path@));
                    }
                }
                return false;
            }
            m = m + 1;
        }
        assert forall|p: Seq<char>| #[trigger] touches(*c, p) implies {
            &&& changes_of(h2, p) <= usize::MAX
            &&& additions_to(h2, p) <= usize::MAX
            &&& deletions_from(h2, p) <= usize::MAX
        } by {
            assert(has_delta(ds@, p));
            let k = choose|k: int| 0 <= k < ds@.len() && #[trigger] ds@[k].path@ == p;
        }
        // The heat map and the day.
        let w = weekday_exec(c.time);
        let hr = hour_exec(c.time);
        proof {
            lemma_slot(w as int, hr as int, 0, 0);
        }
        let slot = w * 24 + hr;
        assert(self.heat@[slot as int] == heat_count(h, w as int, hr as int));
        if self.heat[slot].checked_add(1).is_none() {
            return false;
        }
        let day = day_of(c.time);
        let di = find_day(&self.days, day);
        let day_before: usize = match di {
            Some(k) => self.days[k].count,
            None => 0,
        };
        assert(day_before == day_count(h, day as int));
        if day_before.checked_add(1).is_none() {
            return false;
        }
        assert(Self::fits(h, *c));
        // Everything fits: count the commit.
        apply_author(&mut self.authors, ai, name.clone(), c, &ds, Ghost(h));
        apply_files(&mut self.files, &name, c, &ds, Ghost(h));
        let ghost old_heat = self.heat@;
        let cell = self.heat[slot] + 1;
        self.heat.set(slot, cell);
        proof {
            assert forall|w2: int, hr2: int| 0 <= w2 < 7 && 0 <= hr2 < 24 implies #[trigger] self.heat@[w2 * 24 + hr2]
                == heat_count(h2, w2, hr2) by {
                lemma_slot(w as int, hr as int, w2, hr2);
                assert(old_heat[w2 * 24 + hr2] == heat_count(h, w2, hr2));
            }
        }
        let ghost old_days = self.days@;
        match di {
            Some(k) => {
                self.days.set(k, DayCount { day, count: day_before + 1 });
            },
            None => {
                self.days.push(DayCount { day, count: 1 });
            },
        }
        proof {
            let v = self.days@;
            assert forall|i: int| 0 <= i < v.len() implies #[trigger] v[i].count == day_count(h2, v[i].day as int) by {
                if i < old_days.len() && v[i].day != day {
                    assert(v[i] == old_days[i]);
                }
            }
            assert forall|i: int, j: int| 0 <= i < j < v.len() implies v[i].day != v[j].day by {
                if i < old_days.len() && j < old_days.len() {
                    if v[i].day != day {
                        assert(v[i] == old_days[i]);
                    }
                    if v[j].day != day {
                        assert(v[j] == old_days[j]);
                    }
                } else if i < old_days.len() {
                    assert(v[i] == old_days[i]);
                    if v[i].day == day {
                        assert(has_day(old_days, day as int));
                    }
                }
            }
            assert forall|d: int| #[trigger] has_day(v, d) <==> day_count(h2, d) > 0 by {
                if d == day {
                    match di {
                        Some(k) => assert(v[k as int].day == d),
                        None => assert(v[old_days.len() as int].day == d),
                    }
                } else {
                    if has_day(v, d) {
                        let k = choose|k: int| 0 <= k < v.len() && #[trigger] v[k].day == d;
                        assert(old_days[k].day == d);
                    }
                    if has_day(old_days, d) {
                        let k = choose|k: int| 0 <= k < old_days.len() && #[trigger] old_days[k].day == d;
                        assert(v[k].day == d);
                    }
                }
            }
        }
        if c.time < self.first_ts {
            self.first_ts = c.time;
            self.first_msg = match &c.summary {
                Some(t) => t.clone(),
                None => String::new(),
            };
        }
        if c.time > self.last_ts {
            self.last_ts = c.time;
            self.last_msg = match &c.summary {
                Some(t) => t.clone(),
                None => String::new(),
            };
        }
        self.history = Ghost(h2);
        true
    }

    /// A tally of no commits.
    pub fn new() -> (t: GitTally)
        ensures
            t.wf(),
            t.history() == Seq::<CommitRecord>::empty(),
    {
        let mut heat: Vec<usize> = Vec::new();
        while heat.len() < 168
            invariant
                heat@.len() <= 168,
                forall|i: int| 0 <= i < heat@.len() ==> heat@[i] == 0,
            decreases 168 - heat@.len(),
        {
            heat.push(0);
        }
        let t = GitTally {
            authors: Vec::new(),
            files: Vec::new(),
            heat,
            days: Vec::new(),
            first_ts: i64::MAX,
            first_msg: String::new(),
            last_ts: i64::MIN,
            last_msg: String::new(),
            history: Ghost(Seq::empty()),
        };
        proof {
            let h = Seq::<CommitRecord>::empty();
            assert forall|w: int, hr: int| 0 <= w < 7 && 0 <= hr < 24 implies #[trigger] t.heat@[w * 24 + hr] == heat_count(h, w, hr) by {
                assert(0 <= w * 24 + hr < 168) by (nonlinear_arith)
                    requires 0 <= w < 7, 0 <= hr < 24;
            }
        }
        t
    }
}

/// The commits of `h` counted in the first `k` cells of the heat map, cell
/// `i` being weekday `i / 24` and hour `i % 24`.
pub open spec fn heat_prefix(h: Seq<CommitRecord>, k: nat) -> nat
    decreases k,
{
    if k == 0 {
        0
    } else {
        heat_prefix(h, (k - 1) as nat) + heat_count(h, (k - 1) / 24, (k - 1) % 24)
    }
}

proof fn lemma_heat_prefix_push(h: Seq<CommitRecord>, c: CommitRecord, k: nat)
    requires
        k <= 168,
    ensures
        heat_prefix(h.push(c), k) == heat_prefix(h, k) + if weekday_of(c.time) * 24 + hour_of(c.time) < k {
            1nat
        } else {
            0nat
        },
    decreases k,
{
    let (w, hr) = (weekday_of(c.time), hour_of(c.time));
    assert(0 <= w < 7 && 0 <= hr < 24);
    lemma_slot(w, hr, 0, 0);
    if k > 0 {
        let i = k - 1;
        lemma_heat_prefix_push(h, c, i as nat);
        assert(h.push(c).drop_last() =~= h);
        assert(i == (i / 24) * 24 + i % 24);
        lemma_slot(w, hr, i / 24, i % 24);
    }
}

/// The heat map counts every commit exactly once: its 7 × 24 cells add up
/// to the number of commits.
pub proof fn law_heat_map_counts_each_commit(h: Seq<CommitRecord>)
    ensures
        heat_prefix(h, 168) == h.len(),
    decreases h.len(),
{
    if h.len() == 0 {
        lemma_heat_prefix_empty(h, 168);
    } else {
        let (w, hr) = (weekday_of(h.last().time), hour_of(h.last().time));
        lemma_slot(w, hr, 0, 0);
        law_heat_map_counts_each_commit(h.drop_last());
        lemma_heat_prefix_push(h.drop_last(), h.last(), 168);
        assert(h.drop_last().push(h.last()) =~= h);
    }
}

proof fn lemma_heat_prefix_empty(h: Seq<CommitRecord>, k: nat)
    requires
        h.len() == 0,
    ensures
        heat_prefix(h, k) == 0,
    decreases k,
{
    if k > 0 {
        lemma_heat_prefix_empty(h, (k - 1) as nat);
    }
}

proof fn lemma_slot(w: int, hr: int, w2: int, hr2: int)
    requires
        0 <= w < 7,
        0 <= hr < 24,
        0 <= w2 < 7,
        0 <= hr2 < 24,
    ensures
        0 <= w * 24 + hr < 168,
        (w * 24 + hr == w2 * 24 + hr2) == (w == w2 && hr == hr2),
{
    assert(0 <= w * 24 + hr < 168) by (nonlinear_arith)
        requires 0 <= w < 7, 0 <= hr < 24;
    assert((w * 24 + hr == w2 * 24 + hr2) ==> (w == w2 && hr == hr2)) by (nonlinear_arith)
        requires 0 <= hr < 24, 0 <= hr2 < 24;
}

fn find_day(v: &Vec<DayCount>, d: i64) -> (r: Option<usize>)
    ensures
        match r {
            Some(k) => k < v@.len() && v@[k as int].day == d,
            None => !has_day(v@, d as int),
        },
{
    let mut i: usize = 0;
    while i < v.len()
        invariant
            i <= v@.len(),
            forall|k: int| 0 <= k < i ==> v@[k].day != d,
        decreases v@.len() - i,
    {
        if v[i].day == d {
            return Some(i);
        }
        i = i + 1;
    }
    None
}

fn day_of(ts: i64) -> (d: i64)
    ensures
        d == day_number(ts),
{
    ts / 86400
}

fn hour_exec(ts: i64) -> (hr: usize)
    ensures
        hr == hour_of(ts),
        hr < 24,
{
    (((ts % 86400) + 86400) % 86400 / 3600) as usize
}

fn weekday_exec(ts: i64) -> (w: usize)
    ensures
        w == weekday_of(ts),
        w < 7,
{
    let d = day_of(ts);
    (((d % 7) + 10) % 7) as usize
}

// ─── The finished statistics ─────────────────────────────────────────────────

/// The number of different paths that commits of `h` by `n` touch.
pub open spec fn touched_count(h: Seq<CommitRecord>, n: Seq<char>) -> nat {
    Set::new(|p: Seq<char>| wrote(h, n, p)).len()
}

/// The number of different authors of the commits of `h` that touch `p`.
pub open spec fn author_count(h: Seq<CommitRecord>, p: Seq<char>) -> nat {
    Set::new(|n: Seq<char>| wrote(h, n, p)).len()
}

/// The number of different paths that commits of `h` touch.
pub open spec fn file_count(h: Seq<CommitRecord>) -> nat {
    Set::new(|p: Seq<char>| changes_of(h, p) > 0).len()
}

pub open spec fn author_stats_ok(a: AuthorStats, h: Seq<CommitRecord>) -> bool {
    &&& a.commits == commits_by(h, a.name@)
    &&& a.commits > 0
    &&& a.additions == insertions_by(h, a.name@)
    &&& a.deletions == deletions_by(h, a.name@)
    &&& a.files_touched == touched_count(h, a.name@)
}

pub open spec fn file_stats_ok(f: FileStats, h: Seq<CommitRecord>) -> bool {
    &&& f.changes == changes_of(h, f.path@)
    &&& f.changes > 0
    &&& f.additions == additions_to(h, f.path@)
    &&& f.deletions == deletions_from(h, f.path@)
    &&& f.authors == author_count(h, f.path@)
}

pub open spec fn lists_author(v: Seq<AuthorStats>, n: Seq<char>) -> bool {
    exists|i: int| 0 <= i < v.len() && #[trigger] v[i].name@ == n
}

pub open spec fn lists_file(v: Seq<FileStats>, p: Seq<char>) -> bool {
    exists|i: int| 0 <= i < v.len() && #[trigger] v[i].path@ == p
}

/// At most the first 40 characters of `s`.
pub open spec fn first40(s: Seq<char>) -> Seq<char> {
    if s.len() <= 40 {
        s
    } else {
        s.take(40)
    }
}

/// The date of a commit and the start of its summary.
pub open spec fn commit_line(e: (i64, Seq<char>)) -> Seq<char> {
    date_text(e.0) + seq![' '] + first40(e.1)
}

/// The authors of `h`, each once, from most to fewest commits.
pub open spec fn authors_match(v: Seq<AuthorStats>, h: Seq<CommitRecord>) -> bool {
    &&& forall|i: int| 0 <= i < v.len() ==> #[trigger] author_stats_ok(v[i], h)
    &&& forall|i: int, j: int| 0 <= i < j < v.len() ==> v[i].name@ != v[j].name@
    &&& forall|i: int, j: int| 0 <= i < j < v.len() ==> v[i].commits >= v[j].commits
    &&& forall|n: Seq<char>| #[trigger] lists_author(v, n) <==> commits_by(h, n) > 0
}

/// The (at most) 100 most changed paths of `h`, each once, from most to fewest changes.
pub open spec fn hot_files_match(v: Seq<FileStats>, h: Seq<CommitRecord>) -> bool {
    &&& forall|i: int| 0 <= i < v.len() ==> #[trigger] file_stats_ok(v[i], h)
    &&& forall|i: int, j: int| 0 <= i < j < v.len() ==> v[i].path@ != v[j].path@
    &&& forall|i: int, j: int| 0 <= i < j < v.len() ==> v[i].changes >= v[j].changes
    &&& v.len() == if file_count(h) < 100 { file_count(h) } else { 100 }
    &&& forall|p: Seq<char>| #[trigger] lists_file(v, p) ==> changes_of(h, p) > 0
    &&& forall|p: Seq<char>| changes_of(h, p) > 0 && !#[trigger] lists_file(v, p) ==>
        changes_of(h, p) <= v.last().changes
}

/// The statistics of the commits `h` of the repository at `repo`, of which
/// `total` were listed, with activity for the 364 days up to day `now_day`.
pub open spec fn stats_match(
    s: GitStats,
    h: Seq<CommitRecord>,
    repo: Seq<char>,
    total: usize,
    now_day: i64,
) -> bool {
    &&& s.repo_path@ == repo
    &&& s.total_commits == total
    &&& authors_match(s.authors@, h)
    &&& s.total_authors == s.authors@.len()
    &&& hot_files_match(s.hot_files@, h)
    &&& s.total_files == s.hot_files@.len()
    &&& forall|w: int, hr: int| 0 <= w < 7 && 0 <= hr < 24 ==> #[trigger] s.heatmap@[w]@[hr]
        == heat_count(h, w, hr)
    &&& s.activity@.len() == 364
    &&& forall|i: int| 0 <= i < 364 ==> #[trigger] s.activity@[i] == day_count(h, now_day - 363 + i)
    &&& s.first_commit@ == commit_line(earliest(h))
    &&& s.last_commit@ == commit_line(latest(h))
}

proof fn lemma_set_len(w: Seq<Seq<char>>, s: Set<Seq<char>>)
    requires
        forall|i: int, j: int| 0 <= i < j < w.len() ==> w[i] != w[j],
        forall|p: Seq<char>| #[trigger] s.contains(p) <==> w.contains(p),
    ensures
        s.finite(),
        s.len() == w.len(),
{
    broadcast use vstd::seq_lib::seq_to_set_is_finite;
    assert(w.no_duplicates());
    w.unique_seq_to_set();
    assert(w.to_set() =~= s);
}

proof fn lemma_listed_len(v: Seq<String>, s: Set<Seq<char>>)
    requires
        distinct(v),
        forall|p: Seq<char>| #[trigger] s.contains(p) <==> listed(v, p),
    ensures
        s.len() == v.len(),
{
    let w = v.map_values(|x: String| x@);
    assert forall|p: Seq<char>| #[trigger] s.contains(p) <==> w.contains(p) by {
        if listed(v, p) {
            let k = choose|k: int| 0 <= k < v.len() && #[trigger] v[k]@ == p;
            assert(w[k] == p);
        }
        if w.contains(p) {
            let k = choose|k: int| 0 <= k < w.len() && w[k] == p;
            assert(v[k]@ == p);
        }
    }
    lemma_set_len(w, s);
}

fn author_list(authors: &Vec<AuthorEntry>, Ghost(h): Ghost<Seq<CommitRecord>>) -> (out: Vec<AuthorStats>)
    requires
        authors_ok(authors@, h),
    ensures
        authors_match(out@, h),
{
    let mut keys: Vec<usize> = Vec::new();
    let mut k: usize = 0;
    while k < authors.len()
        invariant
            k <= authors@.len(),
            keys@.len() == k,
            forall|i: int| 0 <= i < k ==> #[trigger] keys@[i] == authors@[i].commits,
        decreases authors@.len() - k,
    {
        keys.push(authors[k].commits);
        k = k + 1;
    }
    let perm = order_desc(&keys);
    let mut out: Vec<AuthorStats> = Vec::new();
    let mut i: usize = 0;
    while i < perm.len()
        invariant
            i <= perm@.len(),
            is_permutation(perm@, authors@.len()),
            sorted_desc(keys@, perm@),
            keys@.len() == authors@.len(),
            forall|j: int| 0 <= j < authors@.len() ==> #[trigger] keys@[j] == authors@[j].commits,
            authors_ok(authors@, h),
            out@.len() == i,
            forall|j: int| 0 <= j < i ==> #[trigger] out@[j].name@ == authors@[perm@[j] as int].name@
                && author_stats_ok(out@[j], h),
        decreases perm@.len() - i,
    {
        let e = &authors[perm[i]];
        proof {
            assert(author_ok(authors@[perm@[i as int] as int], h));
            lemma_listed_len(e.paths@, Set::new(|p: Seq<char>| wrote(h, e.name@, p)));
        }
        out.push(AuthorStats {
            name: e.name.clone(),
            commits: e.commits,
            additions: e.additions,
            deletions: e.deletions,
            files_touched: e.paths.len(),
        });
        i = i + 1;
    }
    proof {
        let v = out@;
        assert forall|a: int, b: int| 0 <= a < b < v.len() implies v[a].name@ != v[b].name@ by {
            assert(perm@[a] != perm@[b]);
            assert(v[a].name@ == authors@[perm@[a] as int].name@);
            assert(v[b].name@ == authors@[perm@[b] as int].name@);
            if perm@[a] < perm@[b] {
                assert(authors@[perm@[a] as int].name@ != authors@[perm@[b] as int].name@);
            } else {
                assert(authors@[perm@[b] as int].name@ != authors@[perm@[a] as int].name@);
            }
        }
        assert forall|a: int, b: int| 0 <= a < b < v.len() implies v[a].commits >= v[b].commits by {
            assert(v[a].name@ == authors@[perm@[a] as int].name@);
            assert(author_stats_ok(v[a], h));
            assert(author_stats_ok(v[b], h));
            assert(author_ok(authors@[perm@[a] as int], h));
            assert(author_ok(authors@[perm@[b] as int], h));
            assert(keys@[perm@[a] as int] == authors@[perm@[a] as int].commits);
            assert(keys@[perm@[b] as int] == authors@[perm@[b] as int].commits);
        }
        assert forall|n: Seq<char>| #[trigger] lists_author(v, n) <==> commits_by(h, n) > 0 by {
            if lists_author(v, n) {
                let j = choose|j: int| 0 <= j < v.len() && #[trigger] v[j].name@ == n;
                assert(authors@[perm@[j] as int].name@ == n);
                assert(has_author(authors@, n));
            }
            if commits_by(h, n) > 0 {
                assert(has_author(authors@, n));
                let k = choose|k: int| 0 <= k < authors@.len() && #[trigger] authors@[k].name@ == n;
                assert(occurs(perm@, k));
                let j = choose|j: int| 0 <= j < perm@.len() && #[trigger] perm@[j] == k;
                assert(v[j].name@ == n);
            }
        }
    }
    out
}

fn hot_file_list(files: &Vec<FileEntry>, Ghost(h): Ghost<Seq<CommitRecord>>) -> (out: Vec<FileStats>)
    requires
        files_ok(files@, h),
    ensures
        hot_files_match(out@, h),
{
    let mut keys: Vec<usize> = Vec::new();
    let mut k: usize = 0;
    while k < files.len()
        invariant
            k <= files@.len(),
            keys@.len() == k,
            forall|i: int| 0 <= i < k ==> #[trigger] keys@[i] == files@[i].changes,
        decreases files@.len() - k,
    {
        keys.push(files[k].changes);
        k = k + 1;
    }
    let perm = order_desc(&keys);
    let limit: usize = if perm.len() < 100 { perm.len() } else { 100 };
    let mut out: Vec<FileStats> = Vec::new();
    let mut i: usize = 0;
    while i < limit
        invariant
            i <= limit <= perm@.len(),
            limit == if perm@.len() < 100 { perm@.len() } else { 100 },
            is_permutation(perm@, files@.len()),
            sorted_desc(keys@, perm@),
            keys@.len() == files@.len(),
            forall|j: int| 0 <= j < files@.len() ==> #[trigger] keys@[j] == files@[j].changes,
            files_ok(files@, h),
            out@.len() == i,
            forall|j: int| 0 <= j < i ==> #[trigger] out@[j].path@ == files@[perm@[j] as int].path@
                && out@[j].changes == files@[perm@[j] as int].changes && file_stats_ok(out@[j], h),
        decreases limit - i,
    {
        let e = &files[perm[i]];
        proof {
            assert(file_ok(files@[perm@[i as int] as int], h));
            lemma_listed_len(e.names@, Set::new(|n: Seq<char>| wrote(h, n, e.path@)));
        }
        out.push(FileStats {
            path: e.path.clone(),
            changes: e.changes,
            additions: e.additions,
            deletions: e.deletions,
            authors: e.names.len(),
        });
        i = i + 1;
    }
    proof {
        let v = out@;
        let w = files@.map_values(|e: FileEntry| e.path@);
        let paths = Set::new(|p: Seq<char>| changes_of(h, p) > 0);
        assert forall|p: Seq<char>| #[trigger] paths.contains(p) <==> w.contains(p) by {
            if changes_of(h, p) > 0 {
                assert(has_file(files@, p));
                let k = choose|k: int| 0 <= k < files@.len() && #[trigger] files@[k].path@ == p;
                assert(w[k] == p);
            }
            if w.contains(p) {
                let k = choose|k: int| 0 <= k < w.len() && w[k] == p;
                assert(files@[k].path@ == p);
                assert(has_file(files@, p));
            }
        }
        assert forall|a: int, b: int| 0 <= a < b < w.len() implies w[a] != w[b] by {}
        lemma_set_len(w, paths);
        assert(file_count(h) == files@.len());
        assert forall|a: int, b: int| 0 <= a < b < v.len() implies v[a].path@ != v[b].path@ by {
            assert(perm@[a] != perm@[b]);
            if perm@[a] < perm@[b] {
                assert(files@[perm@[a] as int].path@ != files@[perm@[b] as int].path@);
            } else {
                assert(files@[perm@[b] as int].path@ != files@[perm@[a] as int].path@);
            }
        }
        assert forall|a: int, b: int| 0 <= a < b < v.len() implies v[a].changes >= v[b].changes by {
            assert(keys@[perm@[a] as int] == files@[perm@[a] as int].changes);
            assert(keys@[perm@[b] as int] == files@[perm@[b] as int].changes);
        }
        assert forall|p: Seq<char>| #[trigger] lists_file(v, p) implies changes_of(h, p) > 0 by {
            let j = choose|j: int| 0 <= j < v.len() && #[trigger] v[j].path@ == p;
            assert(file_stats_ok(v[j], h));
        }
        assert forall|p: Seq<char>| changes_of(h, p) > 0 && !#[trigger] lists_file(v, p) implies
            changes_of(h, p) <= v.last().changes by {
            assert(has_file(files@, p));
            let k = choose|k: int| 0 <= k < files@.len() && #[trigger] files@[k].path@ == p;
            assert(occurs(perm@, k));
            let j = choose|j: int| 0 <= j < perm@.len() && #[trigger] perm@[j] == k;
            if j < limit {
                assert(v[j].path@ == p);
            } else {
                assert(file_ok(files@[k], h));
                assert(keys@[perm@[99] as int] == files@[perm@[99] as int].changes);
                assert(keys@[perm@[j] as int] == files@[perm@[j] as int].changes);
                assert(limit == 100);
                assert(v.len() == 100);
                assert(v[99].path@ == files@[perm@[99] as int].path@);
                assert(v[99].changes == files@[perm@[99] as int].changes);
                assert(v.last() == v[99]);
            }
        }
    }
    out
}

fn commit_line_exec(ts: i64, msg: &String) -> (s: String)
    ensures
        s@ == commit_line((ts, msg@)),
{
    let mut s = fmt_ts(ts);
    s.append(" ");
    let cs = chars_of(msg.as_str());
    let n: usize = if cs.len() <= 40 { cs.len() } else { 40 };
    let mut head: Vec<char> = Vec::new();
    let mut i: usize = 0;
    while i < n
        invariant
            i <= n <= cs@.len(),
            head@ == cs@.take(i as int),
        decreases n - i,
    {
        head.push(cs[i]);
        assert(cs@.take(i + 1) =~= cs@.take(i as int).push(cs@[i as int]));
        i = i + 1;
    }
    let tail = string_from(&head);
    s.append(tail.as_str());
    proof {
        reveal_strlit(" ");
        if cs@.len() <= 40 {
            assert(cs@.take(n as int) =~= cs@);
        }
    }
    assert(s@ =~= commit_line((ts, msg@)));
    s
}

impl GitTally {
    /// The statistics of the commits counted, for the repository at
    /// `repo_path` whose history lists `total` commits, with activity for the
    /// 364 days up to day `now_day` (days since the Unix epoch).
    pub fn finish(&self, repo_path: &str, total: usize, now_day: i64) -> (stats: GitStats)
        requires
            self.wf(),
            now_day >= i64::MIN + 363,
        ensures
            stats_match(stats, self.history(), repo_path@, total, now_day),
    {
        let ghost h = self.history@;
        let authors = author_list(&self.authors, Ghost(h));
        let hot_files = hot_file_list(&self.files, Ghost(h));
        let mut heatmap = [[0usize; 24]; 7];
        let mut w: usize = 0;
        while w < 7
            invariant
                w <= 7,
                heat_ok(self.heat@, h),
                forall|a: int, b: int| 0 <= a < w && 0 <= b < 24 ==> #[trigger] heatmap@[a]@[b]
                    == heat_count(h, a, b),
            decreases 7 - w,
        {
            let mut row = [0usize; 24];
            let mut hr: usize = 0;
            while hr < 24
                invariant
                    w < 7,
                    hr <= 24,
                    heat_ok(self.heat@, h),
                    forall|b: int| 0 <= b < hr ==> #[trigger] row@[b] == heat_count(h, w as int, b),
                decreases 24 - hr,
            {
                proof {
                    lemma_slot(w as int, hr as int, 0, 0);
                }
                row[hr] = self.heat[w * 24 + hr];
                hr = hr + 1;
            }
            heatmap[w] = row;
            w = w + 1;
        }
        let mut activity: Vec<usize> = Vec::new();
        let mut i: i64 = 0;
        while i < 364
            invariant
                0 <= i <= 364,
                now_day >= i64::MIN + 363,
                days_ok(self.days@, h),
                activity@.len() == i,
                forall|j: int| 0 <= j < i ==> #[trigger] activity@[j] == day_count(h, now_day - 363 + j),
            decreases 364 - i,
        {
            let day = now_day - 363 + i;
            let n = match find_day(&self.days, day) {
                Some(k) => self.days[k].count,
                None => 0,
            };
            activity.push(n);
            i = i + 1;
        }
        let first_commit = commit_line_exec(self.first_ts, &self.first_msg);
        let last_commit = commit_line_exec(self.last_ts, &self.last_msg);
        let total_authors = authors.len();
        let total_files = hot_files.len();
        GitStats {
            repo_path: String::from_str(repo_path),
            total_commits: total,
            total_authors,
            total_files,
            first_commit,
            last_commit,
            authors,
            hot_files,
            heatmap,
            activity,
        }
    }
}

} // verus!
