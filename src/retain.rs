//! The bounded retain: filter `[start, end)` of a vector in place.

use crate::bounds::{end_index, normalize, selects_within, start_index, IndexRange};
use vstd::prelude::*;

verus! {

/// The elements of `s` whose flag in `keep` is set, in their order in `s`.
pub open spec fn select<T>(s: Seq<T>, keep: Seq<bool>) -> Seq<T>
    decreases s.len(),
{
    if s.len() == 0 {
        Seq::empty()
    } else {
        let rest = select(s.drop_last(), keep.drop_last());
        if keep.last() {
            rest.push(s.last())
        } else {
            rest
        }
    }
}

/// `s` with its slice `[start, end)` replaced by the elements of `mid` that
/// `keep` marks.
pub open spec fn spliced<T>(s: Seq<T>, start: int, end: int, mid: Seq<T>, keep: Seq<bool>) -> Seq<T> {
    s.subrange(0, start) + select(mid, keep) + s.subrange(end, s.len() as int)
}

/// `keep[i]` is a possible answer of `f` on `before[i]`, for every `i`.
pub open spec fn judged<T, F: FnMut(&T) -> bool>(f: F, before: Seq<T>, keep: Seq<bool>) -> bool {
    &&& keep.len() == before.len()
    &&& forall|i: int| 0 <= i < before.len() ==> call_ensures(f, (&before[i],), #[trigger] keep[i])
}

/// Appending one element and its flag appends it to the selection exactly when the flag is set.
pub proof fn lemma_select_push<T>(s: Seq<T>, keep: Seq<bool>, x: T, b: bool)
    requires
        keep.len() == s.len(),
    ensures
        select(s.push(x), keep.push(b)) == if b { select(s, keep).push(x) } else { select(s, keep) },
{
    assert(s.push(x).drop_last() =~= s);
    assert(keep.push(b).drop_last() =~= keep);
}

/// The state of a pass over `s` from `start`, after looking at `[start, processed_len)`:
/// `v` holds the untouched prefix and the kept elements of `after` below
/// `processed_len - deleted_cnt`, and the unvisited elements of `s` from `processed_len` on.
pub open spec fn in_progress<T>(
    v: Seq<T>,
    s: Seq<T>,
    start: int,
    processed_len: int,
    deleted_cnt: int,
    after: Seq<T>,
    keep: Seq<bool>,
) -> bool {
    &&& 0 <= start <= processed_len <= s.len()
    &&& 0 <= deleted_cnt <= processed_len - start
    &&& v.len() == s.len()
    &&& after.len() == processed_len - start
    &&& keep.len() == processed_len - start
    &&& v.subrange(0, processed_len - deleted_cnt) == s.subrange(0, start) + select(after, keep)
    &&& v.subrange(processed_len, s.len() as int) == s.subrange(processed_len, s.len() as int)
}

/// `v` with the elements at `i` and `j` exchanged.
pub open spec fn swapped<T>(v: Seq<T>, i: int, j: int) -> Seq<T> {
    v.update(i, v[j]).update(j, v[i])
}

/// One element judged: the element at `processed_len` became `e` and the answer was `b`.
/// A kept element moves down over the first hole, if there is one.
pub proof fn lemma_step<T>(
    v: Seq<T>,
    s: Seq<T>,
    start: int,
    processed_len: int,
    deleted_cnt: int,
    after: Seq<T>,
    keep: Seq<bool>,
    e: T,
    b: bool,
    w: Seq<T>,
)
    requires
        in_progress(v, s, start, processed_len, deleted_cnt, after, keep),
        processed_len < s.len(),
        w == if b && deleted_cnt > 0 {
            swapped(v.update(processed_len, e), processed_len - deleted_cnt, processed_len)
        } else {
            v.update(processed_len, e)
        },
    ensures
        in_progress(
            w,
            s,
            start,
            processed_len + 1,
            if b { deleted_cnt } else { deleted_cnt + 1 },
            after.push(e),
            keep.push(b),
        ),
{
    let p = processed_len;
    let d = deleted_cnt;
    let n = s.len() as int;
    lemma_select_push(after, keep, e, b);
    assert(v.subrange(p + 1, n) =~= v.subrange(p, n).subrange(1, n - p));
    assert(s.subrange(p + 1, n) =~= s.subrange(p, n).subrange(1, n - p));
    assert(w.subrange(p + 1, n) =~= v.subrange(p + 1, n));
    if b {
        assert(w.subrange(0, p + 1 - d) =~= v.subrange(0, p - d).push(e));
    } else {
        assert(w.subrange(0, p - d) =~= v.subrange(0, p - d));
    }
}

/// Swaps the elements at `i` and `j`.
fn swap_back<T>(v: &mut Vec<T>, i: usize, j: usize)
    requires
        i < j < old(v)@.len(),
    ensures
        final(v)@ == old(v)@.update(i as int, old(v)@[j as int]).update(j as int, old(v)@[i as int]),
{
    let s = v.as_mut_slice();
    let (lo, hi) = s.split_at_mut(j);
    core::mem::swap(&mut lo[i], &mut hi[0]);
}

/// Closes the holes that a retain pass leaves behind it.
///
/// During a pass the vector holds, in order, the elements kept so far
/// (`[0, processed_len - deleted_cnt)`), `deleted_cnt` holes that hold discarded
/// elements, and the elements not yet looked at (`[processed_len, len)`).
/// This moves the unvisited elements down over the holes and drops what the
/// holes hold, so the vector is left with the kept elements followed by every
/// unvisited one. A pass calls it once it has looked at the whole range; the
/// contract holds for any `processed_len` and `deleted_cnt` that fit the layout.
pub fn backshift_holes<T>(v: &mut Vec<T>, processed_len: usize, deleted_cnt: usize)
    requires
        deleted_cnt <= processed_len <= old(v)@.len(),
    ensures
        final(v)@ == old(v)@.subrange(0, processed_len - deleted_cnt) + old(v)@.subrange(
            processed_len as int,
            old(v)@.len() as int,
        ),
        final(v)@.len() == old(v)@.len() - deleted_cnt,
{
    let ghost orig = v@;
    let len = v.len();
    let mut i: usize = processed_len;
    while i < len
        invariant
            deleted_cnt <= processed_len <= i <= len,
            len == orig.len(),
            v@.len() == len,
            v@.subrange(0, processed_len - deleted_cnt) == orig.subrange(0, processed_len - deleted_cnt),
            v@.subrange(processed_len - deleted_cnt, i - deleted_cnt) == orig.subrange(processed_len as int, i as int),
            v@.subrange(i as int, len as int) == orig.subrange(i as int, len as int),
        decreases len - i,
    {
        if deleted_cnt > 0 {
            let ghost prev = v@;
            swap_back(v, i - deleted_cnt, i);
            assert(v@.subrange(0, processed_len - deleted_cnt) =~= prev.subrange(0, processed_len - deleted_cnt));
            assert(v@.subrange(processed_len - deleted_cnt, i + 1 - deleted_cnt) =~= prev.subrange(
                processed_len - deleted_cnt,
                i - deleted_cnt,
            ).push(prev[i as int]));
            assert(prev[i as int] == prev.subrange(i as int, len as int)[0]);
            assert(orig.subrange(processed_len as int, i + 1) =~= orig.subrange(processed_len as int, i as int).push(orig[i as int]));
            assert(orig[i as int] == orig.subrange(i as int, len as int)[0]);
            assert(v@.subrange(i + 1, len as int) =~= prev.subrange(i + 1, len as int));
            assert(prev.subrange(i + 1, len as int) =~= prev.subrange(i as int, len as int).subrange(1, len - i));
            assert(orig.subrange(i + 1, len as int) =~= orig.subrange(i as int, len as int).subrange(1, len - i));
        } else {
            assert(orig.subrange(processed_len as int, i + 1) =~= orig.subrange(processed_len as int, i as int).push(orig[i as int]));
            assert(orig[i as int] == orig.subrange(i as int, len as int)[0]);
            assert(v@.subrange(processed_len as int, i + 1) =~= v@.subrange(processed_len as int, i as int).push(v@[i as int]));
            assert(v@[i as int] == v@.subrange(i as int, len as int)[0]);
            assert(v@.subrange(i + 1, len as int) =~= v@.subrange(i as int, len as int).subrange(1, len - i));
            assert(orig.subrange(i + 1, len as int) =~= orig.subrange(i as int, len as int).subrange(1, len - i));
        }
        i = i + 1;
    }
    v.truncate(len - deleted_cnt);
    assert(v@ =~= orig.subrange(0, processed_len - deleted_cnt) + orig.subrange(processed_len as int, len as int));
}

/// In-place filtering of part of a sequence.
///
/// Only the elements whose index lies in `range` are handed to the predicate,
/// each once and in increasing index order; those for which it answers `false`
/// are dropped. The kept ones stay in their order, and every element outside
/// the range stays as it is, shifted down by the number dropped when it lies
/// after the range.
///
/// A discarded element is swapped into a hole behind the kept ones and is
/// dropped when the pass closes the holes, not at the moment it is judged.
/// If the predicate panics, no element is dropped twice or lost, but the
/// vector keeps its length: the elements discarded so far are still in it,
/// between the ones kept so far and the ones not yet looked at.
pub trait RetainRange<T>: View<V = Seq<T>> + Sized {
    /// Keeps the elements of `range` on which `f` answers `true`.
    fn retain_range<R, F>(&mut self, range: R, f: F)
        where
            R: IndexRange,
            F: FnMut(&T) -> bool,
        requires
            selects_within(range.spec_lower(), range.spec_upper(), old(self)@.len()),
            forall|i: int|
                start_index(range.spec_lower()) <= i < end_index(range.spec_upper(), old(self)@.len())
                    ==> call_requires(f, (&#[trigger] old(self)@[i],)),
        ensures
            ({
                let s = old(self)@;
                let start = start_index(range.spec_lower());
                let end = end_index(range.spec_upper(), s.len());
                exists|keep: Seq<bool>|
                    #![trigger spliced(s, start, end, s.subrange(start, end), keep)]
                    judged(f, s.subrange(start, end), keep) && final(self)@ == spliced(
                        s,
                        start,
                        end,
                        s.subrange(start, end),
                        keep,
                    )
            }),
    ;

    /// Keeps the elements of `range` on which `f` answers `true`; `f` may
    /// change each element it is handed, and the kept ones keep the change.
    ///
    /// For each index `i` of the range, `after[i]` is the element as `f`
    /// left it and `keep[i]` is what `f` answered; the `choose` names the
    /// reference that `f` was handed.
    fn retain_range_mut<R, F>(&mut self, range: R, f: F)
        where
            R: IndexRange,
            F: FnMut(&mut T) -> bool,
        requires
            selects_within(range.spec_lower(), range.spec_upper(), old(self)@.len()),
            forall|i: int, x: &mut T|
                #![trigger old(self)@[i], call_requires(f, (x,))]
                start_index(range.spec_lower()) <= i < end_index(range.spec_upper(), old(self)@.len())
                    && mut_ref_current(x) == old(self)@[i] ==> call_requires(f, (x,)),
        ensures
            ({
                let s = old(self)@;
                let start = start_index(range.spec_lower());
                let end = end_index(range.spec_upper(), s.len());
                exists|after: Seq<T>, keep: Seq<bool>|
                    #![trigger spliced(s, start, end, after, keep)]
                    after.len() == end - start && keep.len() == end - start && (forall|i: int|
                        #![trigger after[i]]
                        0 <= i < end - start ==> {
                            let x = choose|x: &mut T|
                                mut_ref_current(x) == s[start + i] && mut_ref_future(x) == after[i]
                                    && call_ensures(f, (x,), keep[i]);
                            mut_ref_current(x) == s[start + i] && mut_ref_future(x) == after[i]
                                && call_ensures(f, (x,), keep[i])
                        }) && final(self)@ == spliced(
                        s,
                        start,
                        end,
                        after,
                        keep,
                    )
            }),
    ;
}

impl<T> RetainRange<T> for Vec<T> {
    fn retain_range<R, F>(&mut self, range: R, f: F)
        where
            R: IndexRange,
            F: FnMut(&T) -> bool,
    {
        let mut pred = f;
        let ghost s = self@;
        let original_len = self.len();
        let (start, end) = normalize(&range, original_len);
        let mut processed_len: usize = start;
        let mut deleted_cnt: usize = 0;
        let ghost mut keep: Seq<bool> = Seq::empty();
        assert(self@.subrange(0, start as int) =~= s.subrange(0, start as int) + select(
            s.subrange(start as int, start as int),
            keep,
        ));
        // Nothing dropped yet: kept elements stay where they are.
        while processed_len != end && deleted_cnt == 0
            invariant
                pred == f,
                forall|i: int| start <= i < end ==> call_requires(f, (&#[trigger] s[i],)),
                end <= original_len == s.len(),
                in_progress(
                    self@,
                    s,
                    start as int,
                    processed_len as int,
                    deleted_cnt as int,
                    s.subrange(start as int, processed_len as int),
                    keep,
                ),
                processed_len <= end,
                judged(f, s.subrange(start as int, processed_len as int), keep),
            decreases end - processed_len,
        {
            let ghost v = self@;
            let ghost prev = s.subrange(start as int, processed_len as int);
            assert(s[processed_len as int] == self@[processed_len as int]) by {
                assert(self@.subrange(processed_len as int, original_len as int)[0] == self@[processed_len as int]);
            }
            let b = pred(&self[processed_len]);
            proof {
                assert(v.subrange(processed_len as int, original_len as int)[0] == v[processed_len as int]);
                assert(v[processed_len as int] == s[processed_len as int]);
                assert(v.update(processed_len as int, s[processed_len as int]) =~= v);
                lemma_step(v, s, start as int, processed_len as int, deleted_cnt as int, prev, keep, s[processed_len as int], b, self@);
                assert(s.subrange(start as int, processed_len + 1) =~= prev.push(s[processed_len as int]));
                keep = keep.push(b);
            }
            if !b {
                deleted_cnt = deleted_cnt + 1;
            }
            processed_len = processed_len + 1;
        }
        // Something was dropped: each kept element moves down over the first hole.
        while processed_len != end
            invariant
                pred == f,
                forall|i: int| start <= i < end ==> call_requires(f, (&#[trigger] s[i],)),
                end <= original_len == s.len(),
                in_progress(
                    self@,
                    s,
                    start as int,
                    processed_len as int,
                    deleted_cnt as int,
                    s.subrange(start as int, processed_len as int),
                    keep,
                ),
                processed_len <= end,
                deleted_cnt > 0 || processed_len == end,
                judged(f, s.subrange(start as int, processed_len as int), keep),
            decreases end - processed_len,
        {
            let ghost v = self@;
            let ghost prev = s.subrange(start as int, processed_len as int);
            assert(s[processed_len as int] == self@[processed_len as int]) by {
                assert(self@.subrange(processed_len as int, original_len as int)[0] == self@[processed_len as int]);
            }
            let b = pred(&self[processed_len]);
            proof {
                assert(v.subrange(processed_len as int, original_len as int)[0] == v[processed_len as int]);
                assert(v[processed_len as int] == s[processed_len as int]);
                assert(v.update(processed_len as int, s[processed_len as int]) =~= v);
            }
            if b {
                swap_back(self, processed_len - deleted_cnt, processed_len);
            } else {
                deleted_cnt = deleted_cnt + 1;
            }
            proof {
                lemma_step(v, s, start as int, processed_len as int, (if b { deleted_cnt } else { (deleted_cnt - 1) as usize }) as int, prev, keep, s[processed_len as int], b, self@);
                assert(s.subrange(start as int, processed_len + 1) =~= prev.push(s[processed_len as int]));
                keep = keep.push(b);
            }
            processed_len = processed_len + 1;
        }
        backshift_holes(self, processed_len, deleted_cnt);
        assert(self@ =~= spliced(s, start as int, end as int, s.subrange(start as int, end as int), keep));
    }

    fn retain_range_mut<R, F>(&mut self, range: R, f: F)
        where
            R: IndexRange,
            F: FnMut(&mut T) -> bool,
    {
        let mut pred = f;
        let ghost s = self@;
        let original_len = self.len();
        let (start, end) = normalize(&range, original_len);
        let mut processed_len: usize = start;
        let mut deleted_cnt: usize = 0;
        let ghost mut after: Seq<T> = Seq::empty();
        let ghost mut keep: Seq<bool> = Seq::empty();
        assert(self@.subrange(0, start as int) =~= s.subrange(0, start as int) + select(after, keep));
        // Nothing dropped yet: kept elements stay where they are.
        while processed_len != end && deleted_cnt == 0
            invariant
                forall|i: int, x: &mut T|
                    #![trigger s[i], call_requires(f, (x,))]
                    start <= i < end && mut_ref_current(x) == s[i] ==> call_requires(f, (x,)),
                end <= original_len == s.len(),
                in_progress(self@, s, start as int, processed_len as int, deleted_cnt as int, after, keep),
                pred == f,
                forall|i: int|
                    #![trigger after[i]]
                    0 <= i < processed_len - start ==> {
                        let x = choose|x: &mut T|
                            mut_ref_current(x) == s[start + i] && mut_ref_future(x) == after[i]
                                && call_ensures(f, (x,), keep[i]);
                        mut_ref_current(x) == s[start + i] && mut_ref_future(x) == after[i]
                            && call_ensures(f, (x,), keep[i])
                    },
                processed_len <= end,
            decreases end - processed_len,
        {
            let ghost v = self@;
            assert(s[processed_len as int] == self@[processed_len as int]) by {
                assert(self@.subrange(processed_len as int, original_len as int)[0] == self@[processed_len as int]);
            }
            let b = pred(&mut self[processed_len]);
            proof {
                let e = self@[processed_len as int];
                assert(v.subrange(processed_len as int, original_len as int)[0] == v[processed_len as int]);
                assert(self@ =~= v.update(processed_len as int, e));
                lemma_step(v, s, start as int, processed_len as int, deleted_cnt as int, after, keep, e, b, self@);
                after = after.push(e);
                keep = keep.push(b);
            }
            if !b {
                deleted_cnt = deleted_cnt + 1;
            }
            processed_len = processed_len + 1;
        }
        // Something was dropped: each kept element moves down over the first hole.
        while processed_len != end
            invariant
                forall|i: int, x: &mut T|
                    #![trigger s[i], call_requires(f, (x,))]
                    start <= i < end && mut_ref_current(x) == s[i] ==> call_requires(f, (x,)),
                end <= original_len == s.len(),
                in_progress(self@, s, start as int, processed_len as int, deleted_cnt as int, after, keep),
                pred == f,
                forall|i: int|
                    #![trigger after[i]]
                    0 <= i < processed_len - start ==> {
                        let x = choose|x: &mut T|
                            mut_ref_current(x) == s[start + i] && mut_ref_future(x) == after[i]
                                && call_ensures(f, (x,), keep[i]);
                        mut_ref_current(x) == s[start + i] && mut_ref_future(x) == after[i]
                            && call_ensures(f, (x,), keep[i])
                    },
                processed_len <= end,
                deleted_cnt > 0 || processed_len == end,
            decreases end - processed_len,
        {
            let ghost v = self@;
            assert(s[processed_len as int] == self@[processed_len as int]) by {
                assert(self@.subrange(processed_len as int, original_len as int)[0] == self@[processed_len as int]);
            }
            let b = pred(&mut self[processed_len]);
            let ghost e = self@[processed_len as int];
            proof {
                assert(v.subrange(processed_len as int, original_len as int)[0] == v[processed_len as int]);
                assert(self@ =~= v.update(processed_len as int, e));
            }
            if b {
                swap_back(self, processed_len - deleted_cnt, processed_len);
            } else {
                deleted_cnt = deleted_cnt + 1;
            }
            proof {
                lemma_step(v, s, start as int, processed_len as int, (if b { deleted_cnt } else { (deleted_cnt - 1) as usize }) as int, after, keep, e, b, self@);
                after = after.push(e);
                keep = keep.push(b);
            }
            processed_len = processed_len + 1;
        }
        backshift_holes(self, processed_len, deleted_cnt);
        assert(self@ =~= spliced(s, start as int, end as int, after, keep));
    }
}

} // verus!
