use vstd::prelude::*;
use crate::controls::ProcSort;
use crate::order::is_permutation;
use crate::ranking::{rank_order, ranked, text_before, RankKey};
use crate::text::{chars_of, string_from};

verus! {

// ── Filtering by name ────────────────────────────────────────────────────────

/// What `str::to_lowercase` gives for the text `s`.
pub uninterp spec fn lowercase(s: Seq<char>) -> Seq<char>;

/// `str::to_lowercase`: the text with each character replaced by its
/// lowercase mapping in Unicode. The mapping is a function of the text
/// alone; what it gives for each character is not stated here, only that
/// the empty text stays empty.
#[verifier::external_body]
pub(crate) fn to_lowercase(s: &str) -> (r: String)
    ensures
        r@ == lowercase(s@),
        s@.len() == 0 ==> r@.len() == 0,
{
    s.to_lowercase()
}

/// Every character of `s` is ASCII.
pub open spec fn is_ascii_text(s: Seq<char>) -> bool {
    forall|i: int| 0 <= i < s.len() ==> s[i] <= '\u{7f}'
}

/// `c` with an ASCII capital letter made small.
pub open spec fn ascii_lower_char(c: char) -> char {
    if 'A' <= c && c <= 'Z' {
        (c as int + 32) as char
    } else {
        c
    }
}

/// `s` with each ASCII capital letter made small.
pub open spec fn ascii_lower(s: Seq<char>) -> Seq<char> {
    s.map_values(|c: char| ascii_lower_char(c))
}

/// The lowercase form of a text, as `str::to_lowercase` gives it: for ASCII
/// text each capital letter A–Z becomes a–z and nothing else changes; for
/// other text, Unicode's mapping (named `lowercase`).
pub open spec fn lowered(s: Seq<char>) -> Seq<char> {
    if is_ascii_text(s) {
        ascii_lower(s)
    } else {
        lowercase(s)
    }
}

fn lower_char(c: char) -> (r: char)
    ensures
        r == ascii_lower_char(c),
{
    if 'A' <= c && c <= 'Z' {
        let u = c as u32;
        assert(u as int == c as int);
        ((u + 32) as u8) as char
    } else {
        c
    }
}

/// The lowercase form of `s`; see `lowered`.
pub(crate) fn lower_text(s: &str) -> (r: String)
    ensures
        r@ == lowered(s@),
{
    let cs = chars_of(s);
    let mut i: usize = 0;
    while i < cs.len()
        invariant
            i <= cs@.len(),
            cs@ == s@,
            forall|k: int| 0 <= k < i ==> cs@[k] <= '\u{7f}',
        decreases cs@.len() - i,
    {
        if cs[i] > '\u{7f}' {
            return to_lowercase(s);
        }
        i = i + 1;
    }
    let mut out: Vec<char> = Vec::new();
    let mut k: usize = 0;
    while k < cs.len()
        invariant
            k <= cs@.len(),
            cs@ == s@,
            out@ == ascii_lower(cs@.take(k as int)),
        decreases cs@.len() - k,
    {
        out.push(lower_char(cs[k]));
        assert(cs@.take(k + 1) =~= cs@.take(k as int).push(cs@[k as int]));
        assert(ascii_lower(cs@.take(k + 1)) =~= ascii_lower(cs@.take(k as int)).push(ascii_lower_char(cs@[k as int])));
        k = k + 1;
    }
    assert(cs@.take(cs@.len() as int) =~= cs@);
    string_from(&out)
}

/// `needle` stands in `hay` from position `i` on.
pub open spec fn part_at(hay: Seq<char>, needle: Seq<char>, i: int) -> bool {
    &&& 0 <= i
    &&& i + needle.len() <= hay.len()
    &&& hay.subrange(i, i + needle.len()) == needle
}

/// `needle` is a part of `hay` (what `str::contains` asks of two texts).
pub open spec fn has_part(hay: Seq<char>, needle: Seq<char>) -> bool {
    exists|i: int| #[trigger] part_at(hay, needle, i)
}

/// Whether `needle` is a part of `hay`.
pub fn contains_text(hay: &Vec<char>, needle: &Vec<char>) -> (r: bool)
    ensures
        r == has_part(hay@, needle@),
{
    let h = hay.len();
    let n = needle.len();
    if n > h {
        return false;
    }
    let mut i: usize = 0;
    while i <= h - n
        invariant
            n <= h,
            h == hay@.len(),
            n == needle@.len(),
            i <= h - n + 1,
            forall|p: int| 0 <= p < i ==> !#[trigger] part_at(hay@, needle@, p),
        decreases h - n + 1 - i,
    {
        let mut j: usize = 0;
        while j < n && hay[i + j] == needle[j]
            invariant
                i + n <= h,
                h == hay@.len(),
                n == needle@.len(),
                j <= n,
                forall|m: int| 0 <= m < j ==> hay@[i + m] == needle@[m],
            decreases n - j,
        {
            j = j + 1;
        }
        if j == n {
            assert(hay@.subrange(i as int, i + n) =~= needle@);
            assert(part_at(hay@, needle@, i as int));
            return true;
        }
        assert(!part_at(hay@, needle@, i as int)) by {
            if part_at(hay@, needle@, i as int) {
                assert(hay@.subrange(i as int, i + n)[j as int] == needle@[j as int]);
            }
        }
        i = i + 1;
    }
    false
}

/// A process named `name` is listed under the filter `filter`: the filter
/// is empty once lowercased, or is a part of the lowercased name.
pub open spec fn name_kept(name: Seq<char>, filter: Seq<char>) -> bool {
    lowered(filter).len() == 0 || has_part(lowered(name), lowered(filter))
}

/// For ASCII names and filters the filter ignores case and nothing else:
/// lowercasing keeps each character in its place, changing only A–Z into
/// a–z; a name is listed exactly when the lowercased filter stands at some
/// position of the lowercased name; so every name that contains the filter
/// as typed is listed, whatever the case of either.
pub proof fn law_filter_ignores_ascii_case(name: Seq<char>, filter: Seq<char>)
    requires
        is_ascii_text(name),
        is_ascii_text(filter),
    ensures
        lowered(name).len() == name.len(),
        forall|i: int| 0 <= i < name.len() ==> {
            ||| #[trigger] lowered(name)[i] == name[i] && !('A' <= name[i] && name[i] <= 'Z')
            ||| 'A' <= name[i] && name[i] <= 'Z' && lowered(name)[i] as int == name[i] as int + 32
        },
        name_kept(name, filter) <==> (filter.len() == 0 || exists|i: int| #[trigger] part_at(
            lowered(name),
            lowered(filter),
            i,
        )),
        has_part(name, filter) ==> name_kept(name, filter),
        has_part(lowered(name), lowered(filter)) ==> name_kept(name, filter),
{
    if has_part(name, filter) {
        let i = choose|i: int| part_at(name, filter, i);
        let n = filter.len() as int;
        assert(ascii_lower(name).subrange(i, i + n) =~= ascii_lower(filter)) by {
            assert forall|k: int| 0 <= k < n implies ascii_lower(name).subrange(i, i + n)[k] == ascii_lower(filter)[k] by {
                assert(name.subrange(i, i + n)[k] == filter[k]);
            }
        }
        assert(part_at(lowered(name), lowered(filter), i));
    }
}

/// The positions of the names listed under `filter`, in order.
pub fn select_processes(names: &Vec<String>, filter: &str) -> (kept: Vec<usize>)
    ensures
        forall|i: int, j: int| 0 <= i < j < kept@.len() ==> kept@[i] < kept@[j],
        forall|i: int| 0 <= i < kept@.len() ==> #[trigger] kept@[i] < names@.len(),
        forall|k: int| 0 <= k < names@.len() ==> (kept@.contains(k as usize) <==> name_kept(
            #[trigger] names@[k]@,
            filter@,
        )),
        filter@.len() == 0 ==> kept@.len() == names@.len(),
{
    let f = chars_of(lower_text(filter).as_str());
    let mut kept: Vec<usize> = Vec::new();
    let mut k: usize = 0;
    while k < names.len()
        invariant
            k <= names@.len(),
            f@ == lowered(filter@),
            filter@.len() == 0 ==> f@.len() == 0 && kept@.len() == k,
            forall|i: int, j: int| 0 <= i < j < kept@.len() ==> kept@[i] < kept@[j],
            forall|i: int| 0 <= i < kept@.len() ==> #[trigger] kept@[i] < k,
            forall|m: int| 0 <= m < k ==> (kept@.contains(m as usize) <==> name_kept(#[trigger] names@[m]@, filter@)),
        decreases names@.len() - k,
    {
        let keep = if f.len() == 0 {
            true
        } else {
            let name = chars_of(lower_text(names[k].as_str()).as_str());
            contains_text(&name, &f)
        };
        let ghost before = kept@;
        if keep {
            kept.push(k);
        }
        proof {
            assert forall|m: int| 0 <= m < k + 1 implies (kept@.contains(m as usize) <==> name_kept(
                #[trigger] names@[m]@,
                filter@,
            )) by {
                if m < k {
                    if kept@.contains(m as usize) {
                        let i = choose|i: int| 0 <= i < kept@.len() && kept@[i] == m as usize;
                        if i < before.len() {
                            assert(before[i] == m as usize);
                        }
                    }
                    if before.contains(m as usize) {
                        let i = choose|i: int| 0 <= i < before.len() && before[i] == m as usize;
                        assert(kept@[i] == m as usize);
                    }
                } else if keep {
                    assert(kept@[before.len() as int] == k);
                } else {
                    if kept@.contains(m as usize) {
                        let i = choose|i: int| 0 <= i < kept@.len() && kept@[i] == m as usize;
                        assert(before[i] < k);
                    }
                }
            }
        }
        k = k + 1;
    }
    kept
}

// ── Ordering ─────────────────────────────────────────────────────────────────

/// What the process list orders a process by. The loads are integers in
/// the order of the readings (larger load, larger number).
pub struct ProcEntry {
    pub pid: u32,
    pub name: String,
    pub cpu_rank: u64,
    pub mem_rank: u64,
}

/// `x` comes before `y` in the list ordered by `sort`: higher CPU or
/// memory load first, lower PID first, or names in dictionary order.
pub open spec fn proc_before(sort: ProcSort, x: ProcEntry, y: ProcEntry) -> bool {
    match sort {
        ProcSort::Cpu => x.cpu_rank > y.cpu_rank,
        ProcSort::Mem => x.mem_rank > y.mem_rank,
        ProcSort::Pid => x.pid < y.pid,
        ProcSort::Name => text_before(x.name@, y.name@),
    }
}

pub open spec fn proc_same(sort: ProcSort, x: ProcEntry, y: ProcEntry) -> bool {
    match sort {
        ProcSort::Cpu => x.cpu_rank == y.cpu_rank,
        ProcSort::Mem => x.mem_rank == y.mem_rank,
        ProcSort::Pid => x.pid == y.pid,
        ProcSort::Name => x.name@ == y.name@,
    }
}

/// `perm` lists the processes as a stable sort by `sort` orders them.
pub open spec fn procs_in_order(sort: ProcSort, procs: Seq<ProcEntry>, perm: Seq<usize>) -> bool {
    forall|i: int, j: int| 0 <= i < j < perm.len() ==> {
        let (x, y) = (procs[#[trigger] perm[i] as int], procs[#[trigger] perm[j] as int]);
        ||| proc_before(sort, x, y)
        ||| proc_same(sort, x, y) && perm[i] < perm[j]
    }
}

pub open spec fn proc_key(sort: ProcSort, p: ProcEntry, k: RankKey) -> bool {
    match sort {
        ProcSort::Cpu => k.first == u64::MAX - p.cpu_rank && k.text@ == Seq::<char>::empty() && k.last == 0,
        ProcSort::Mem => k.first == u64::MAX - p.mem_rank && k.text@ == Seq::<char>::empty() && k.last == 0,
        ProcSort::Pid => k.first == p.pid && k.text@ == Seq::<char>::empty() && k.last == 0,
        ProcSort::Name => k.first == 0 && k.text@ == p.name@ && k.last == 0,
    }
}

fn proc_key_exec(sort: ProcSort, p: &ProcEntry) -> (k: RankKey)
    ensures
        proc_key(sort, *p, k),
{
    match sort {
        ProcSort::Cpu => RankKey { first: u64::MAX - p.cpu_rank, text: Vec::new(), last: 0 },
        ProcSort::Mem => RankKey { first: u64::MAX - p.mem_rank, text: Vec::new(), last: 0 },
        ProcSort::Pid => RankKey { first: p.pid as u64, text: Vec::new(), last: 0 },
        ProcSort::Name => RankKey { first: 0, text: chars_of(p.name.as_str()), last: 0 },
    }
}

/// The positions of the processes in the order of the list sorted by `sort`.
pub fn order_processes(sort: ProcSort, procs: &Vec<ProcEntry>) -> (perm: Vec<usize>)
    ensures
        is_permutation(perm@, procs@.len()),
        procs_in_order(sort, procs@, perm@),
{
    let mut keys: Vec<RankKey> = Vec::new();
    let mut k: usize = 0;
    while k < procs.len()
        invariant
            k <= procs@.len(),
            keys@.len() == k,
            forall|m: int| 0 <= m < k ==> proc_key(sort, procs@[m], #[trigger] keys@[m]),
        decreases procs@.len() - k,
    {
        keys.push(proc_key_exec(sort, &procs[k]));
        k = k + 1;
    }
    let perm = rank_order(&keys);
    proof {
        assert forall|i: int, j: int| 0 <= i < j < perm@.len() implies {
            let (x, y) = (procs@[#[trigger] perm@[i] as int], procs@[#[trigger] perm@[j] as int]);
            ||| proc_before(sort, x, y)
            ||| proc_same(sort, x, y) && perm@[i] < perm@[j]
        } by {
            assert(ranked(keys@, perm@));
            let (a, b) = (perm@[i] as int, perm@[j] as int);
            assert(proc_key(sort, procs@[a], keys@[a]));
            assert(proc_key(sort, procs@[b], keys@[b]));
            crate::ranking::lemma_text_irreflexive(Seq::<char>::empty());
        }
    }
    perm
}

/// No process listed after another comes strictly before it in the order
/// chosen: higher loads, lower PIDs and smaller names come first.
pub proof fn law_processes_sorted(sort: ProcSort, procs: Seq<ProcEntry>, perm: Seq<usize>, i: int, j: int)
    requires
        procs_in_order(sort, procs, perm),
        0 <= i < j < perm.len(),
    ensures
        !proc_before(sort, procs[perm[j] as int], procs[perm[i] as int]),
{
    let (x, y) = (procs[perm[i] as int], procs[perm[j] as int]);
    assert(proc_before(sort, x, y) || proc_same(sort, x, y));
    crate::ranking::lemma_text_irreflexive(x.name@);
    if text_before(x.name@, y.name@) && text_before(y.name@, x.name@) {
        crate::ranking::lemma_text_transitive(x.name@, y.name@, x.name@);
    }
}

} // verus!
