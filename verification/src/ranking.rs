use vstd::prelude::*;
use crate::order::{is_permutation, occurs};

verus! {

// ── Texts in dictionary order ────────────────────────────────────────────────

/// `a` and `b` agree before position `k`, and at `k` either `a` has ended
/// while `b` goes on, or `a` has the smaller character.
pub open spec fn parts_at(a: Seq<char>, b: Seq<char>, k: int) -> bool {
    &&& 0 <= k <= a.len()
    &&& k <= b.len()
    &&& forall|m: int| 0 <= m < k ==> a[m] == b[m]
    &&& {
        ||| k == a.len() && k < b.len()
        ||| k < a.len() && k < b.len() && (a[k] as int) < (b[k] as int)
    }
}

/// `a` comes strictly before `b` in dictionary order of the characters
/// (the order of `str`: UTF-8 keeps the order of the code points).
pub open spec fn text_before(a: Seq<char>, b: Seq<char>) -> bool {
    exists|k: int| #[trigger] parts_at(a, b, k)
}

pub proof fn lemma_text_irreflexive(a: Seq<char>)
    ensures
        !text_before(a, a),
{
}

pub proof fn lemma_text_transitive(a: Seq<char>, b: Seq<char>, c: Seq<char>)
    requires
        text_before(a, b),
        text_before(b, c),
    ensures
        text_before(a, c),
{
    let k1 = choose|k: int| parts_at(a, b, k);
    let k2 = choose|k: int| parts_at(b, c, k);
    if k1 < k2 {
        assert(b[k1] == c[k1]);
        assert(parts_at(a, c, k1));
    } else if k2 < k1 {
        assert(a[k2] == b[k2]);
        assert(parts_at(a, c, k2));
    } else {
        assert(parts_at(a, c, k1));
    }
}

/// The outcome of comparing two keys.
#[derive(PartialEq, Eq, Structural, Clone, Copy)]
pub enum Rank {
    Before,
    Same,
    After,
}

/// Compares two texts in dictionary order.
pub fn compare_text(a: &Vec<char>, b: &Vec<char>) -> (r: Rank)
    ensures
        r == Rank::Before <==> text_before(a@, b@),
        r == Rank::After <==> text_before(b@, a@),
        r == Rank::Same <==> a@ == b@,
{
    let mut i: usize = 0;
    while i < a.len() && i < b.len()
        invariant
            i <= a@.len(),
            i <= b@.len(),
            forall|m: int| 0 <= m < i ==> a@[m] == b@[m],
        decreases a@.len() - i,
    {
        if a[i] != b[i] {
            proof {
                lemma_text_irreflexive(a@);
            }
            if a[i] < b[i] {
                assert(parts_at(a@, b@, i as int));
                proof {
                    if text_before(b@, a@) {
                        lemma_text_transitive(a@, b@, a@);
                    }
                }
                return Rank::Before;
            } else {
                assert(parts_at(b@, a@, i as int));
                proof {
                    if text_before(a@, b@) {
                        lemma_text_transitive(a@, b@, a@);
                    }
                }
                return Rank::After;
            }
        }
        i = i + 1;
    }
    proof {
        lemma_text_irreflexive(a@);
    }
    if a.len() == b.len() {
        assert(a@ =~= b@);
        Rank::Same
    } else if a.len() < b.len() {
        assert(parts_at(a@, b@, i as int));
        proof {
            if text_before(b@, a@) {
                lemma_text_transitive(a@, b@, a@);
            }
        }
        Rank::Before
    } else {
        assert(parts_at(b@, a@, i as int));
        proof {
            if text_before(a@, b@) {
                lemma_text_transitive(a@, b@, a@);
            }
        }
        Rank::After
    }
}

// ── Keys: a number, a text, a number ─────────────────────────────────────────

/// What an item is ordered by: `first`, then `text`, then `last`.
pub struct RankKey {
    pub first: u64,
    pub text: Vec<char>,
    pub last: u64,
}

pub open spec fn key_same(x: RankKey, y: RankKey) -> bool {
    x.first == y.first && x.text@ == y.text@ && x.last == y.last
}

/// `x` comes strictly before `y`: by `first`, then `text`, then `last`.
pub open spec fn key_before(x: RankKey, y: RankKey) -> bool {
    ||| x.first < y.first
    ||| x.first == y.first && text_before(x.text@, y.text@)
    ||| x.first == y.first && x.text@ == y.text@ && x.last < y.last
}

/// Item `i` comes before item `j` in a stable sort by key: a smaller key,
/// or the same key and an earlier position.
pub open spec fn precedes(keys: Seq<RankKey>, i: int, j: int) -> bool {
    ||| key_before(keys[i], keys[j])
    ||| key_same(keys[i], keys[j]) && i < j
}

/// `perm` lists positions of `keys` as a stable sort by key orders them.
pub open spec fn ranked(keys: Seq<RankKey>, perm: Seq<usize>) -> bool {
    forall|i: int, j: int| 0 <= i < j < perm.len() ==> precedes(keys, #[trigger] perm[i] as int, #[trigger] perm[j] as int)
}

pub proof fn lemma_precedes_irreflexive(keys: Seq<RankKey>, i: int)
    ensures
        !precedes(keys, i, i),
{
    lemma_text_irreflexive(keys[i].text@);
}

pub proof fn lemma_precedes_transitive(keys: Seq<RankKey>, i: int, j: int, l: int)
    requires
        precedes(keys, i, j),
        precedes(keys, j, l),
    ensures
        precedes(keys, i, l),
{
    let (x, y, z) = (keys[i], keys[j], keys[l]);
    if x.first == y.first && y.first == z.first && text_before(x.text@, y.text@) && text_before(y.text@, z.text@) {
        lemma_text_transitive(x.text@, y.text@, z.text@);
    }
}

/// Whether item `i` comes before item `j` (two different positions).
fn precedes_exec(keys: &Vec<RankKey>, i: usize, j: usize) -> (r: bool)
    requires
        i < keys@.len(),
        j < keys@.len(),
        i != j,
    ensures
        r ==> precedes(keys@, i as int, j as int),
        !r ==> precedes(keys@, j as int, i as int),
{
    let x = &keys[i];
    let y = &keys[j];
    if x.first != y.first {
        x.first < y.first
    } else {
        match compare_text(&x.text, &y.text) {
            Rank::Before => true,
            Rank::After => false,
            Rank::Same => {
                if x.last != y.last {
                    x.last < y.last
                } else {
                    i < j
                }
            },
        }
    }
}

// ── Sorting ──────────────────────────────────────────────────────────────────

/// Every position in `v` is one of `a` or of `b`, and each of `a` and `b`
/// is in `v`.
pub open spec fn merged_from(v: Seq<usize>, a: Seq<usize>, b: Seq<usize>) -> bool {
    &&& forall|k: int| 0 <= k < v.len() ==> #[trigger] a.contains(v[k]) || b.contains(v[k])
    &&& forall|m: int| 0 <= m < a.len() ==> v.contains(#[trigger] a[m])
    &&& forall|m: int| 0 <= m < b.len() ==> v.contains(#[trigger] b[m])
}

fn merge(keys: &Vec<RankKey>, a: &Vec<usize>, b: &Vec<usize>) -> (out: Vec<usize>)
    requires
        ranked(keys@, a@),
        ranked(keys@, b@),
        forall|m: int| 0 <= m < a@.len() ==> #[trigger] a@[m] < keys@.len(),
        forall|m: int| 0 <= m < b@.len() ==> #[trigger] b@[m] < keys@.len(),
        forall|m: int, n: int| 0 <= m < a@.len() && 0 <= n < b@.len() ==> a@[m] != b@[n],
    ensures
        out@.len() == a@.len() + b@.len(),
        ranked(keys@, out@),
        merged_from(out@, a@, b@),
{
    let mut out: Vec<usize> = Vec::new();
    let mut i: usize = 0;
    let mut j: usize = 0;
    while i < a.len() || j < b.len()
        invariant
            i <= a@.len(),
            j <= b@.len(),
            out@.len() == i + j,
            ranked(keys@, a@),
            ranked(keys@, b@),
            forall|m: int| 0 <= m < a@.len() ==> #[trigger] a@[m] < keys@.len(),
            forall|m: int| 0 <= m < b@.len() ==> #[trigger] b@[m] < keys@.len(),
            forall|m: int, n: int| 0 <= m < a@.len() && 0 <= n < b@.len() ==> a@[m] != b@[n],
            ranked(keys@, out@),
            merged_from(out@, a@.take(i as int), b@.take(j as int)),
            out@.len() > 0 && i < a@.len() ==> precedes(keys@, out@.last() as int, a@[i as int] as int),
            out@.len() > 0 && j < b@.len() ==> precedes(keys@, out@.last() as int, b@[j as int] as int),
        decreases a@.len() + b@.len() - i - j,
    {
        let take_a = if i < a.len() && j < b.len() {
            precedes_exec(keys, a[i], b[j])
        } else {
            i < a.len()
        };
        let ghost before = out@;
        let e = if take_a { a[i] } else { b[j] };
        out.push(e);
        proof {
            assert(out@ == before.push(e));
            // the new last item comes after every earlier one
            assert forall|p: int, q: int| 0 <= p < q < out@.len() implies precedes(
                keys@,
                #[trigger] out@[p] as int,
                #[trigger] out@[q] as int,
            ) by {
                if q == before.len() {
                    if p < before.len() - 1 {
                        assert(precedes(keys@, before[p] as int, before.last() as int));
                        lemma_precedes_transitive(keys@, before[p] as int, before.last() as int, e as int);
                    }
                } else {
                    assert(out@[p] == before[p] && out@[q] == before[q]);
                }
            }
        }
        if take_a {
            proof {
                let na = a@.take(i + 1);
                let nb = b@.take(j as int);
                assert(na == a@.take(i as int).push(a@[i as int]));
                assert forall|k: int| 0 <= k < out@.len() implies #[trigger] na.contains(out@[k]) || nb.contains(out@[k]) by {
                    if k < before.len() {
                        assert(out@[k] == before[k]);
                        if a@.take(i as int).contains(before[k]) {
                            let m = choose|m: int| 0 <= m < i && a@.take(i as int)[m] == before[k];
                            assert(na[m] == before[k]);
                        }
                    } else {
                        assert(na[i as int] == out@[k]);
                    }
                }
                assert forall|m: int| 0 <= m < na.len() implies out@.contains(#[trigger] na[m]) by {
                    if m < i {
                        assert(a@.take(i as int)[m] == na[m]);
                        assert(before.contains(na[m]));
                        let k = choose|k: int| 0 <= k < before.len() && before[k] == na[m];
                        assert(out@[k] == na[m]);
                    } else {
                        assert(out@[before.len() as int] == na[m]);
                    }
                }
                assert forall|m: int| 0 <= m < nb.len() implies out@.contains(#[trigger] nb[m]) by {
                    assert(before.contains(nb[m]));
                    let k = choose|k: int| 0 <= k < before.len() && before[k] == nb[m];
                    assert(out@[k] == nb[m]);
                }
                if i + 1 < a@.len() {
                    assert(precedes(keys@, a@[i as int] as int, a@[i + 1] as int));
                }
            }
            i = i + 1;
        } else {
            proof {
                let na = a@.take(i as int);
                let nb = b@.take(j + 1);
                assert(nb == b@.take(j as int).push(b@[j as int]));
                assert forall|k: int| 0 <= k < out@.len() implies na.contains(#[trigger] out@[k]) || nb.contains(out@[k]) by {
                    if k < before.len() {
                        assert(out@[k] == before[k]);
                        if b@.take(j as int).contains(before[k]) {
                            let m = choose|m: int| 0 <= m < j && b@.take(j as int)[m] == before[k];
                            assert(nb[m] == before[k]);
                        }
                    } else {
                        assert(nb[j as int] == out@[k]);
                    }
                }
                assert forall|m: int| 0 <= m < nb.len() implies out@.contains(#[trigger] nb[m]) by {
                    if m < j {
                        assert(b@.take(j as int)[m] == nb[m]);
                        assert(before.contains(nb[m]));
                        let k = choose|k: int| 0 <= k < before.len() && before[k] == nb[m];
                        assert(out@[k] == nb[m]);
                    } else {
                        assert(out@[before.len() as int] == nb[m]);
                    }
                }
                assert forall|m: int| 0 <= m < na.len() implies out@.contains(#[trigger] na[m]) by {
                    assert(before.contains(na[m]));
                    let k = choose|k: int| 0 <= k < before.len() && before[k] == na[m];
                    assert(out@[k] == na[m]);
                }
                if j + 1 < b@.len() {
                    assert(precedes(keys@, b@[j as int] as int, b@[j + 1] as int));
                }
            }
            j = j + 1;
        }
    }
    assert(a@.take(a@.len() as int) =~= a@);
    assert(b@.take(b@.len() as int) =~= b@);
    out
}

/// The positions `lo..hi` of `keys`, ordered as a stable sort by key.
fn sort_range(keys: &Vec<RankKey>, lo: usize, hi: usize) -> (out: Vec<usize>)
    requires
        lo <= hi <= keys@.len(),
    ensures
        out@.len() == hi - lo,
        ranked(keys@, out@),
        forall|k: int| 0 <= k < out@.len() ==> lo <= #[trigger] out@[k] < hi,
        forall|x: int| lo <= x < hi ==> #[trigger] occurs(out@, x),
    decreases hi - lo,
{
    if hi - lo <= 1 {
        let mut out: Vec<usize> = Vec::new();
        if hi > lo {
            out.push(lo);
            assert(occurs(out@, lo as int) == (out@[0] == lo));
        }
        return out;
    }
    let mid = lo + (hi - lo) / 2;
    let a = sort_range(keys, lo, mid);
    let b = sort_range(keys, mid, hi);
    let out = merge(keys, &a, &b);
    proof {
        assert forall|k: int| 0 <= k < out@.len() implies lo <= #[trigger] out@[k] < hi by {
            if a@.contains(out@[k]) {
                let m = choose|m: int| 0 <= m < a@.len() && a@[m] == out@[k];
                assert(lo <= a@[m] < mid);
            } else {
                assert(b@.contains(out@[k]));
                let m = choose|m: int| 0 <= m < b@.len() && b@[m] == out@[k];
                assert(mid <= b@[m] < hi);
            }
        }
        assert forall|x: int| lo <= x < hi implies #[trigger] occurs(out@, x) by {
            if x < mid {
                assert(occurs(a@, x));
                let m = choose|m: int| 0 <= m < a@.len() && #[trigger] a@[m] == x;
                assert(out@.contains(a@[m]));
            } else {
                assert(occurs(b@, x));
                let m = choose|m: int| 0 <= m < b@.len() && #[trigger] b@[m] == x;
                assert(out@.contains(b@[m]));
            }
            let k = choose|k: int| 0 <= k < out@.len() && out@[k] == x;
            assert(out@[k] == x);
        }
    }
    out
}

/// The positions of `keys` in the order of a stable sort by key.
pub fn rank_order(keys: &Vec<RankKey>) -> (perm: Vec<usize>)
    ensures
        is_permutation(perm@, keys@.len()),
        ranked(keys@, perm@),
{
    let perm = sort_range(keys, 0, keys.len());
    proof {
        assert forall|i: int, j: int| 0 <= i < j < perm@.len() implies perm@[i] != perm@[j] by {
            assert(precedes(keys@, perm@[i] as int, perm@[j] as int));
            lemma_precedes_irreflexive(keys@, perm@[i] as int);
        }
    }
    perm
}

} // verus!
