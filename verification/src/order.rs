use vstd::prelude::*;
use crate::ranking::{lemma_text_irreflexive, precedes, rank_order, ranked, RankKey};

verus! {

/// `perm` lists each of `0..n` exactly once.
pub open spec fn is_permutation(perm: Seq<usize>, n: nat) -> bool {
    &&& perm.len() == n
    &&& forall|i: int| 0 <= i < perm.len() ==> #[trigger] perm[i] < n
    &&& forall|i: int, j: int| 0 <= i < j < perm.len() ==> perm[i] != perm[j]
    &&& forall|k: int| 0 <= k < n ==> #[trigger] occurs(perm, k)
}

pub open spec fn occurs(perm: Seq<usize>, k: int) -> bool {
    exists|i: int| 0 <= i < perm.len() && #[trigger] perm[i] == k
}

/// `perm` orders the keys from largest to smallest, equal keys in the
/// order they had (what a stable sort by descending key gives).
pub open spec fn sorted_desc(keys: Seq<usize>, perm: Seq<usize>) -> bool {
    forall|i: int, j: int| 0 <= i < j < perm.len() ==> {
        ||| keys[perm[i] as int] > keys[perm[j] as int]
        ||| (keys[perm[i] as int] == keys[perm[j] as int] && perm[i] < perm[j])
    }
}

/// The positions of `keys`, ordered by descending key and stably.
pub fn order_desc(keys: &Vec<usize>) -> (perm: Vec<usize>)
    ensures
        is_permutation(perm@, keys@.len()),
        sorted_desc(keys@, perm@),
{
    let mut ranks: Vec<RankKey> = Vec::new();
    let mut k: usize = 0;
    while k < keys.len()
        invariant
            k <= keys@.len(),
            ranks@.len() == k,
            forall|m: int| 0 <= m < k ==> {
                &&& (#[trigger] ranks@[m]).first == u64::MAX - keys@[m]
                &&& ranks@[m].text@ == Seq::<char>::empty()
                &&& ranks@[m].last == 0
            },
        decreases keys@.len() - k,
    {
        ranks.push(RankKey { first: u64::MAX - keys[k] as u64, text: Vec::new(), last: 0 });
        k = k + 1;
    }
    let perm = rank_order(&ranks);
    proof {
        lemma_text_irreflexive(Seq::<char>::empty());
        assert forall|i: int, j: int| 0 <= i < j < perm@.len() implies {
            ||| keys@[perm@[i] as int] > keys@[perm@[j] as int]
            ||| (keys@[perm@[i] as int] == keys@[perm@[j] as int] && perm@[i] < perm@[j])
        } by {
            assert(ranked(ranks@, perm@));
            assert(precedes(ranks@, perm@[i] as int, perm@[j] as int));
        }
    }
    perm
}

} // verus!
