//! Laws of the bounded retain, stated over the model that its contracts use.

use crate::bounds::{end_index, start_index, Bound};
use crate::retain::{select, spliced};
use vstd::prelude::*;

verus! {

/// Number of `false` flags in `keep`: how many elements a pass drops.
pub open spec fn count_dropped(keep: Seq<bool>) -> nat
    decreases keep.len(),
{
    if keep.len() == 0 {
        0
    } else {
        count_dropped(keep.drop_last()) + if keep.last() { 0nat } else { 1nat }
    }
}

/// Indices of the `true` flags in `keep`, in increasing order.
pub open spec fn kept_indices(keep: Seq<bool>) -> Seq<int>
    decreases keep.len(),
{
    if keep.len() == 0 {
        Seq::empty()
    } else {
        let rest = kept_indices(keep.drop_last());
        if keep.last() {
            rest.push(keep.len() - 1)
        } else {
            rest
        }
    }
}

/// The selection has one element per kept flag: its length is the length of
/// `s` less the number dropped.
pub proof fn lemma_select_len<T>(s: Seq<T>, keep: Seq<bool>)
    requires
        keep.len() == s.len(),
    ensures
        select(s, keep).len() == s.len() - count_dropped(keep),
        count_dropped(keep) <= s.len(),
    decreases s.len(),
{
    if s.len() > 0 {
        lemma_select_len(s.drop_last(), keep.drop_last());
    }
}

/// Count law: the result is shorter than the input by exactly the number of
/// elements of the range that were dropped.
pub proof fn law_count<T>(s: Seq<T>, start: int, end: int, mid: Seq<T>, keep: Seq<bool>)
    requires
        0 <= start <= end <= s.len(),
        mid.len() == end - start,
        keep.len() == mid.len(),
    ensures
        spliced(s, start, end, mid, keep).len() == s.len() - count_dropped(keep),
{
    lemma_select_len(mid, keep);
}

/// Identity outside the range: elements before the range keep their index,
/// and elements after it keep their value and order, shifted down by the
/// number dropped.
pub proof fn law_outside_range<T>(s: Seq<T>, start: int, end: int, mid: Seq<T>, keep: Seq<bool>)
    requires
        0 <= start <= end <= s.len(),
        mid.len() == end - start,
        keep.len() == mid.len(),
    ensures
        forall|i: int| 0 <= i < start ==> #[trigger] spliced(s, start, end, mid, keep)[i] == s[i],
        forall|i: int|
            end <= i < s.len() ==> spliced(s, start, end, mid, keep)[i - count_dropped(keep)] == #[trigger] s[i],
{
    lemma_select_len(mid, keep);
    let r = spliced(s, start, end, mid, keep);
    let sel = select(mid, keep);
    assert forall|i: int| end <= i < s.len() implies r[i - count_dropped(keep)] == #[trigger] s[i] by {
        assert(r[i - count_dropped(keep)] == s.subrange(end, s.len() as int)[i - end]);
    }
}

/// The kept indices are increasing, lie in range, point at `true` flags, and
/// there is one of them per element of the selection.
pub proof fn lemma_kept_indices<T>(s: Seq<T>, keep: Seq<bool>)
    requires
        keep.len() == s.len(),
    ensures
        kept_indices(keep).len() == select(s, keep).len(),
        forall|j: int|
            0 <= j < kept_indices(keep).len() ==> {
                let k = #[trigger] kept_indices(keep)[j];
                &&& 0 <= k < s.len()
                &&& keep[k]
                &&& select(s, keep)[j] == s[k]
            },
        forall|j1: int, j2: int|
            0 <= j1 < j2 < kept_indices(keep).len() ==> #[trigger] kept_indices(keep)[j1]
                < #[trigger] kept_indices(keep)[j2],
    decreases s.len(),
{
    if s.len() > 0 {
        let t = s.drop_last();
        let kt = keep.drop_last();
        lemma_kept_indices(t, kt);
        assert forall|j: int| 0 <= j < kept_indices(kt).len() implies #[trigger] kept_indices(kt)[j] < s.len() - 1 by {}
        assert forall|j: int| 0 <= j < kept_indices(kt).len() implies keep[#[trigger] kept_indices(kt)[j]] by {
            assert(keep[kept_indices(kt)[j]] == kt[kept_indices(kt)[j]]);
        }
    }
}

/// Order inside the range: the survivors stand right after the untouched
/// prefix and are the elements at increasing indices of the range on which
/// the answer was `true`.
pub proof fn law_order_in_range<T>(s: Seq<T>, start: int, end: int, mid: Seq<T>, keep: Seq<bool>)
    requires
        0 <= start <= end <= s.len(),
        mid.len() == end - start,
        keep.len() == mid.len(),
    ensures
        ({
            let r = spliced(s, start, end, mid, keep);
            let ks = kept_indices(keep);
            &&& forall|j: int| 0 <= j < ks.len() ==> #[trigger] r[start + j] == mid[ks[j]] && keep[ks[j]]
            &&& forall|j1: int, j2: int| 0 <= j1 < j2 < ks.len() ==> #[trigger] ks[j1] < #[trigger] ks[j2]
        }),
{
    lemma_kept_indices(mid, keep);
    lemma_select_len(mid, keep);
    let r = spliced(s, start, end, mid, keep);
    let ks = kept_indices(keep);
    assert forall|j: int| 0 <= j < ks.len() implies #[trigger] r[start + j] == mid[ks[j]] && keep[ks[j]] by {
        assert(r[start + j] == select(mid, keep)[j]);
        assert(ks[j] == kept_indices(keep)[j]);
    }
}

/// Full-range equivalence: a range that covers the whole sequence gives the
/// plain filter of the sequence; `..` is such a range.
pub proof fn law_full_range<T>(s: Seq<T>, keep: Seq<bool>)
    requires
        keep.len() == s.len(),
    ensures
        spliced(s, 0, s.len() as int, s.subrange(0, s.len() as int), keep) == select(s, keep),
        start_index(Bound::Unbounded) == 0,
        end_index(Bound::Unbounded, s.len()) == s.len(),
{
    assert(s.subrange(0, s.len() as int) =~= s);
    assert(s.subrange(0, 0) + select(s, keep) + s.subrange(s.len() as int, s.len() as int) =~= select(s, keep));
}

/// Empty-range no-op: an empty range leaves the sequence as it was.
pub proof fn law_empty_range<T>(s: Seq<T>, k: int, keep: Seq<bool>)
    requires
        0 <= k <= s.len(),
        keep.len() == 0,
    ensures
        spliced(s, k, k, s.subrange(k, k), keep) == s,
{
    assert(select(s.subrange(k, k), keep) =~= Seq::<T>::empty());
    assert(s.subrange(0, k) + Seq::<T>::empty() + s.subrange(k, s.len() as int) =~= s);
}

/// Keeping everything selects everything.
pub proof fn lemma_select_all<T>(s: Seq<T>, keep: Seq<bool>)
    requires
        keep.len() == s.len(),
        forall|i: int| 0 <= i < keep.len() ==> #[trigger] keep[i],
    ensures
        select(s, keep) == s,
    decreases s.len(),
{
    if s.len() > 0 {
        lemma_select_all(s.drop_last(), keep.drop_last());
        assert(keep.last() == keep[keep.len() - 1]);
        assert(s.drop_last().push(s.last()) =~= s);
    }
}

/// A predicate that always answers `true` leaves the sequence unchanged,
/// whatever the range.
pub proof fn law_keep_all<T>(s: Seq<T>, start: int, end: int, keep: Seq<bool>)
    requires
        0 <= start <= end <= s.len(),
        keep.len() == end - start,
        forall|i: int| 0 <= i < keep.len() ==> #[trigger] keep[i],
    ensures
        spliced(s, start, end, s.subrange(start, end), keep) == s,
{
    lemma_select_all(s.subrange(start, end), keep);
    assert(s.subrange(0, start) + s.subrange(start, end) + s.subrange(end, s.len() as int) =~= s);
}

} // verus!
