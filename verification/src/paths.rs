use vstd::prelude::*;
use crate::procs::{lower_text, lowered};
use crate::ranking::{compare_text, lemma_text_irreflexive, lemma_text_transitive, text_before, Rank};
use crate::text::{chars_of, copy_range, str_equal, string_from};

verus! {

/// `name` completes `prefix`: lowercased, it begins with the lowercased prefix.
pub open spec fn completes(name: Seq<char>, prefix: Seq<char>) -> bool {
    lowered(prefix).len() <= lowered(name).len()
        && lowered(name).take(lowered(prefix).len() as int) == lowered(prefix)
}

/// Whether `s` begins with `prefix`.
pub fn starts_with_text(s: &Vec<char>, prefix: &Vec<char>) -> (r: bool)
    ensures
        r == (prefix@.len() <= s@.len() && s@.take(prefix@.len() as int) == prefix@),
{
    if prefix.len() > s.len() {
        return false;
    }
    let mut i: usize = 0;
    while i < prefix.len()
        invariant
            prefix@.len() <= s@.len(),
            i <= prefix@.len(),
            forall|m: int| 0 <= m < i ==> s@[m] == prefix@[m],
        decreases prefix@.len() - i,
    {
        if s[i] != prefix[i] {
            assert(s@.take(prefix@.len() as int)[i as int] != prefix@[i as int]);
            return false;
        }
        i = i + 1;
    }
    assert(s@.take(prefix@.len() as int) =~= prefix@);
    true
}

/// Name `i` is the one a sorted list of the completing names begins with:
/// no completing name comes before it, and an equal one only later.
pub open spec fn first_completion(names: Seq<String>, prefix: Seq<char>, i: int) -> bool {
    &&& 0 <= i < names.len()
    &&& completes(names[i]@, prefix)
    &&& forall|j: int| 0 <= j < names.len() && j != i && #[trigger] completes(names[j]@, prefix) ==> {
        ||| text_before(names[i]@, names[j]@)
        ||| names[i]@ == names[j]@ && i < j
    }
}

/// At most one name is the first completion: the choice is determined by
/// the names and the prefix.
pub proof fn law_first_completion_unique(names: Seq<String>, prefix: Seq<char>, i: int, j: int)
    requires
        first_completion(names, prefix, i),
        first_completion(names, prefix, j),
    ensures
        i == j,
{
    if i != j {
        let (a, b) = (names[i]@, names[j]@);
        lemma_text_irreflexive(a);
        lemma_text_irreflexive(b);
        if text_before(a, b) && text_before(b, a) {
            lemma_text_transitive(a, b, a);
        }
    }
}

/// The position of the first of `names`, in string order, that completes
/// `prefix`; `None` where none does.
pub fn pick_completion(names: &Vec<String>, prefix: &str) -> (r: Option<usize>)
    ensures
        r is None <==> forall|j: int| 0 <= j < names@.len() ==> !completes(#[trigger] names@[j]@, prefix@),
        r matches Some(i) ==> first_completion(names@, prefix@, i as int),
        prefix@.len() == 0 && names@.len() > 0 ==> r is Some,
{
    let p = chars_of(lower_text(prefix).as_str());
    let mut best: Option<usize> = None;
    let mut best_chars: Vec<char> = Vec::new();
    let mut k: usize = 0;
    while k < names.len()
        invariant
            k <= names@.len(),
            p@ == lowered(prefix@),
            prefix@.len() == 0 ==> p@.len() == 0,
            prefix@.len() == 0 && k > 0 ==> best is Some,
            best is None <==> forall|j: int| 0 <= j < k ==> !completes(#[trigger] names@[j]@, prefix@),
            best matches Some(i) ==> {
                &&& i < k
                &&& best_chars@ == names@[i as int]@
                &&& completes(names@[i as int]@, prefix@)
                &&& forall|j: int| 0 <= j < k && j != i && #[trigger] completes(names@[j]@, prefix@) ==> {
                    ||| text_before(names@[i as int]@, names@[j]@)
                    ||| names@[i as int]@ == names@[j]@ && i < j
                }
            },
        decreases names@.len() - k,
    {
        let lower = chars_of(lower_text(names[k].as_str()).as_str());
        proof {
            if prefix@.len() == 0 {
                assert(lower@.take(0) =~= p@);
            }
        }
        if starts_with_text(&lower, &p) {
            let cand = chars_of(names[k].as_str());
            match best {
                None => {
                    best = Some(k);
                    best_chars = cand;
                },
                Some(i) => {
                    if compare_text(&cand, &best_chars) == Rank::Before {
                        proof {
                            assert forall|j: int| 0 <= j < k + 1 && j != k && #[trigger] completes(
                                names@[j]@,
                                prefix@,
                            ) implies {
                                ||| text_before(names@[k as int]@, names@[j]@)
                                ||| names@[k as int]@ == names@[j]@ && k < j
                            } by {
                                if j != i {
                                    if text_before(names@[i as int]@, names@[j]@) {
                                        lemma_text_transitive(names@[k as int]@, names@[i as int]@, names@[j]@);
                                    }
                                }
                            }
                        }
                        best = Some(k);
                        best_chars = cand;
                    }
                },
            }
        }
        k = k + 1;
    }
    best
}

/// The path that completion gives: the directory `base` (left out where it
/// is "."), the separator, the name chosen and the separator.
pub open spec fn completed_path(base: Seq<char>, name: Seq<char>, sep: char) -> Seq<char> {
    if base == "."@ {
        name.push(sep)
    } else {
        base.push(sep) + name.push(sep)
    }
}

/// The completion of a path in the directory `base` whose last part is
/// `prefix`, given the names of the directories in `base`; `None` where no
/// name completes it.
pub fn complete_path(names: &Vec<String>, prefix: &str, base: &str, sep: char) -> (r: Option<String>)
    ensures
        r is None <==> forall|j: int| 0 <= j < names@.len() ==> !completes(#[trigger] names@[j]@, prefix@),
        r matches Some(s) ==> exists|i: int| #[trigger] first_completion(names@, prefix@, i)
            && s@ == completed_path(base@, names@[i]@, sep),
{
    match pick_completion(names, prefix) {
        None => None,
        Some(i) => {
            let mut s = String::new();
            if !str_equal(base, ".") {
                s.append(base);
                crate::text::string_push(&mut s, sep);
            }
            s.append(names[i].as_str());
            crate::text::string_push(&mut s, sep);
            proof {
                if base@ != "."@ {
                    assert(s@ =~= completed_path(base@, names@[i as int]@, sep));
                }
                assert(first_completion(names@, prefix@, i as int));
            }
            Some(s)
        },
    }
}

/// `c` separates the parts of a path: the platform's separator `sep`, or `/`.
pub open spec fn is_sep(c: char, sep: char) -> bool {
    c == sep || c == '/'
}

/// The position of the last separator of `path`, if any.
pub open spec fn last_sep(path: Seq<char>, sep: char, k: int) -> bool {
    &&& 0 <= k < path.len()
    &&& is_sep(path[k], sep)
    &&& forall|m: int| k < m < path.len() ==> !is_sep(path[m], sep)
}

/// Where the last part of `t` starts: after its last separator, or at 0.
pub open spec fn last_part_start(t: Seq<char>, sep: char) -> int {
    if exists|k: int| last_sep(t, sep, k) {
        (choose|k: int| last_sep(t, sep, k)) + 1
    } else {
        0
    }
}

/// `t` without its trailing separators (a leading one, the root, stays) and
/// without `.` parts after a separator: the text of the components of a
/// path, which pass over both.
pub open spec fn trim_path(t: Seq<char>, sep: char) -> Seq<char>
    decreases t.len(),
{
    if t.len() > 1 && is_sep(t.last(), sep) {
        trim_path(t.drop_last(), sep)
    } else if t.len() >= 2 && t.last() == '.' && is_sep(t[t.len() - 2], sep) {
        trim_path(t.drop_last(), sep)
    } else {
        t
    }
}

/// Where a typed path is completed, as its components give it: in the
/// directory it names when it ends with a separator; else the last
/// component is completed in the directory of the components before it
/// (the current directory "." for a bare name or the root alone). A last
/// component `..` completes nothing in the directory before it; a lone `.`
/// names no directory to list (the empty path).
pub open spec fn completion_split(path: Seq<char>, sep: char) -> (Seq<char>, Seq<char>) {
    if path.len() > 0 && is_sep(path.last(), sep) {
        (path, Seq::empty())
    } else {
        let p = trim_path(path, sep);
        if p.len() == 0 || (p.len() == 1 && is_sep(p[0], sep)) {
            ("."@, Seq::empty())
        } else {
            let s = last_part_start(p, sep);
            let last = p.skip(s);
            let dir = trim_path(p.take(s), sep);
            if last == seq!['.'] {
                (Seq::empty(), Seq::empty())
            } else if last == seq!['.', '.'] {
                (dir, Seq::empty())
            } else if dir.len() == 0 {
                ("."@, last)
            } else {
                (dir, last)
            }
        }
    }
}

fn sep_at(cs: &Vec<char>, i: usize, sep: char) -> (r: bool)
    requires
        i < cs@.len(),
    ensures
        r == is_sep(cs@[i as int], sep),
{
    cs[i] == sep || cs[i] == '/'
}

fn trims_more(cs: &Vec<char>, e: usize, sep: char) -> (r: bool)
    requires
        e <= cs@.len(),
    ensures
        r == ({
            let t = cs@.take(e as int);
            (t.len() > 1 && is_sep(t.last(), sep)) || (t.len() >= 2 && t.last() == '.' && is_sep(
                t[t.len() - 2],
                sep,
            ))
        }),
{
    (e > 1 && sep_at(cs, e - 1, sep)) || (e >= 2 && cs[e - 1] == '.' && sep_at(cs, e - 2, sep))
}

/// The end of `trim_path` of `cs[..hi]`.
fn trim_end_at(cs: &Vec<char>, hi: usize, sep: char) -> (e: usize)
    requires
        hi <= cs@.len(),
    ensures
        e <= hi,
        trim_path(cs@.take(hi as int), sep) == cs@.take(e as int),
{
    let mut e = hi;
    while trims_more(cs, e, sep)
        invariant
            e <= hi <= cs@.len(),
            trim_path(cs@.take(hi as int), sep) == trim_path(cs@.take(e as int), sep),
        decreases e,
    {
        assert(cs@.take(e as int).drop_last() =~= cs@.take(e - 1));
        e = e - 1;
    }
    e
}

/// `last_part_start` of `cs[..e]`.
fn last_start(cs: &Vec<char>, e: usize, sep: char) -> (s: usize)
    requires
        e <= cs@.len(),
    ensures
        s <= e,
        s == last_part_start(cs@.take(e as int), sep),
{
    let ghost t = cs@.take(e as int);
    let mut i = e;
    while i > 0
        invariant
            i <= e <= cs@.len(),
            t == cs@.take(e as int),
            forall|m: int| i <= m < e ==> !is_sep(t[m], sep),
        decreases i,
    {
        if sep_at(cs, i - 1, sep) {
            let k = i - 1;
            assert(last_sep(t, sep, k as int));
            proof {
                assert forall|j: int| last_sep(t, sep, j) implies j == k by {
                    if j < k {
                        assert(!is_sep(t[k as int], sep));
                    }
                }
                let j = choose|j: int| last_sep(t, sep, j);
                assert(j == k);
            }
            return i;
        }
        i = i - 1;
    }
    assert(!(exists|k: int| last_sep(t, sep, k)));
    0
}

/// The directory to list and the prefix to complete for the typed `path`;
/// see `completion_split`.
pub fn split_for_completion(path: &str, sep: char) -> (r: (String, String))
    ensures
        (r.0@, r.1@) == completion_split(path@, sep),
{
    let cs = chars_of(path);
    let n = cs.len();
    if n > 0 && sep_at(&cs, n - 1, sep) {
        return (string_from(&cs), String::new());
    }
    assert(cs@.take(n as int) =~= path@);
    let e = trim_end_at(&cs, n, sep);
    let ghost p = cs@.take(e as int);
    if e == 0 || (e == 1 && sep_at(&cs, 0, sep)) {
        return (String::from_str("."), String::new());
    }
    let s = last_start(&cs, e, sep);
    let d = trim_end_at(&cs, s, sep);
    assert(p.take(s as int) =~= cs@.take(s as int));
    assert(p.skip(s as int) =~= cs@.subrange(s as int, e as int));
    let last = copy_range(&cs, s, e);
    let dir = copy_range(&cs, 0, d);
    assert(dir@ =~= cs@.take(d as int));
    if e - s == 1 && cs[s] == '.' {
        assert(last@ =~= seq!['.']);
        return (String::new(), String::new());
    }
    assert(last@ != seq!['.']) by {
        if last@ == seq!['.'] {
            assert(last@.len() == 1 && last@[0] == '.');
        }
    }
    if e - s == 2 && cs[s] == '.' && cs[s + 1] == '.' {
        assert(last@ =~= seq!['.', '.']);
        return (string_from(&dir), String::new());
    }
    assert(last@ != seq!['.', '.']) by {
        if last@ == seq!['.', '.'] {
            assert(last@.len() == 2 && last@[0] == '.' && last@[1] == '.');
        }
    }
    if d == 0 {
        (String::from_str("."), string_from(&last))
    } else {
        (string_from(&dir), string_from(&last))
    }
}

} // verus!
