use vstd::prelude::*;
use std::collections::VecDeque;

verus! {

/// How many samples a chart keeps.
pub const HISTORY: usize = 60;

/// A buffer of `size` samples, each `zero`.
pub fn ring<T: Copy>(size: usize, zero: T) -> (buf: VecDeque<T>)
    ensures
        buf@ == Seq::new(size as nat, |i: int| zero),
{
    let mut buf: VecDeque<T> = VecDeque::with_capacity(size);
    let mut i: usize = 0;
    while i < size
        invariant
            i <= size,
            buf@ == Seq::new(i as nat, |k: int| zero),
        decreases size - i,
    {
        buf.push_back(zero);
        i = i + 1;
        assert(buf@ =~= Seq::new(i as nat, |k: int| zero));
    }
    buf
}

/// The samples after `val` comes in: the oldest one leaves once `HISTORY`
/// are kept.
pub open spec fn pushed<T>(buf: Seq<T>, val: T) -> Seq<T> {
    if buf.len() >= HISTORY {
        buf.drop_first().push(val)
    } else {
        buf.push(val)
    }
}

/// Adds the sample `val`; see `pushed`.
pub fn push_sample<T>(buf: &mut VecDeque<T>, val: T)
    ensures
        final(buf)@ == pushed(old(buf)@, val),
{
    if buf.len() >= HISTORY {
        let _ = buf.pop_front();
    }
    buf.push_back(val);
}

/// A buffer of at most `HISTORY` samples stays so, and the new sample is
/// the last one.
pub proof fn law_history_bounded<T>(buf: Seq<T>, val: T)
    requires
        buf.len() <= HISTORY,
    ensures
        pushed(buf, val).len() <= HISTORY,
        pushed(buf, val).last() == val,
        buf.len() == HISTORY ==> pushed(buf, val) == buf.subrange(1, HISTORY as int).push(val),
        buf.len() == HISTORY ==> pushed(buf, val).len() == HISTORY,
{
    if buf.len() == HISTORY {
        assert(buf.drop_first() =~= buf.subrange(1, HISTORY as int));
    }
}

} // verus!
