//! Limits on the size of a batch of entries.
use crate::codec::{entry_size, size_of_entry};
use crate::eraftpb::{entries_view, Entry, EntryView};
use vstd::prelude::*;

verus! {

/// The size that limits nothing.
pub const NO_LIMIT: u64 = 0xffff_ffff_ffff_ffff;

/// The bytes that the encodings of `es` take together.
pub open spec fn total_size(es: Seq<EntryView>) -> nat
    decreases es.len(),
{
    if es.len() == 0 {
        0
    } else {
        total_size(es.drop_last()) + entry_size(es.last())
    }
}

/// `es`, cut from the end until it takes no more than `max` bytes, or one entry is left.
pub open spec fn limited(es: Seq<EntryView>, max: u64) -> Seq<EntryView>
    decreases es.len(),
{
    if max == NO_LIMIT || es.len() <= 1 || total_size(es) <= max {
        es
    } else {
        limited(es.drop_last(), max)
    }
}

proof fn lemma_total_grows(es: Seq<EntryView>, i: int, j: int)
    requires
        0 <= i <= j <= es.len(),
    ensures
        total_size(es.take(i)) <= total_size(es.take(j)),
    decreases j,
{
    if i < j {
        lemma_total_grows(es, i, j - 1);
        assert(es.take(j).drop_last() =~= es.take(j - 1));
    }
}

/// A prefix that fits, and that one more entry would make too large, is what is left.
proof fn lemma_limited(es: Seq<EntryView>, max: u64, n: int, k: int)
    requires
        max != NO_LIMIT,
        1 <= k <= n <= es.len(),
        k == 1 || total_size(es.take(k)) <= max,
        k == es.len() || total_size(es.take(k + 1)) > max,
    ensures
        limited(es.take(n), max) == es.take(k),
    decreases n,
{
    if n > k {
        lemma_total_grows(es, k + 1, n);
        assert(es.take(n).drop_last() =~= es.take(n - 1));
        lemma_limited(es, max, n - 1, k);
    }
}

/// What is left after the cut is a prefix, with at least one entry if there was one.
pub proof fn lemma_limited_prefix(es: Seq<EntryView>, max: u64)
    ensures
        limited(es, max).len() <= es.len(),
        limited(es, max) == es.take(limited(es, max).len() as int),
        es.len() > 0 ==> limited(es, max).len() > 0,
    decreases es.len(),
{
    if max == NO_LIMIT || es.len() <= 1 || total_size(es) <= max {
        assert(es.take(es.len() as int) =~= es);
    } else {
        lemma_limited_prefix(es.drop_last(), max);
        let n = limited(es, max).len() as int;
        assert(es.drop_last().take(n) =~= es.take(n));
    }
}

/// Cuts the entries from the end until they take no more than `max` bytes, or one is left.
pub fn limit_size(entries: &mut Vec<Entry>, max: u64)
    ensures
        entries_view(final(entries)@) == limited(entries_view(old(entries)@), max),
{
    if max == NO_LIMIT || entries.len() <= 1 {
        return;
    }
    let ghost es = entries_view(entries@);
    let mut size: u128 = size_of_entry(&entries[0]);
    let mut k: usize = 1;
    assert(es.take(1).drop_last() =~= Seq::<EntryView>::empty());
    assert(total_size(Seq::<EntryView>::empty()) == 0);
    assert(es.take(1).last() == entries@[0]@);
    while k < entries.len()
        invariant
            max != NO_LIMIT,
            1 <= k <= entries.len(),
            es == entries_view(entries@),
            size == total_size(es.take(k as int)),
            k == 1 || size <= max,
            size <= max + 2 * usize::MAX + 100,
        ensures
            1 <= k <= entries.len(),
            k == 1 || total_size(es.take(k as int)) <= max,
            k == es.len() || total_size(es.take(k + 1)) > max,
        decreases entries.len() - k,
    {
        assert(es.take(k + 1).drop_last() =~= es.take(k as int));
        assert(es[k as int] == entries@[k as int]@);
        let next: u128 = size + size_of_entry(&entries[k]);
        if next > max as u128 {
            break;
        }
        size = next;
        k += 1;
    }
    proof {
        lemma_limited(es, max, es.len() as int, k as int);
        assert(es.take(es.len() as int) =~= es);
    }
    entries.truncate(k);
    assert(entries_view(entries@) =~= es.take(k as int));
}

} // verus!
