//! Index ranges as callers write them, and their normalization to `[start, end)`.

use core::ops::{Range, RangeFrom, RangeFull, RangeInclusive, RangeTo, RangeToInclusive};
use vstd::prelude::*;

verus! {

/// One end of an index range, as a caller writes it.
#[derive(Clone, Copy, Debug, PartialEq, Eq, Structural)]
pub enum Bound {
    Unbounded,
    Included(usize),
    Excluded(usize),
}

/// First index that a start bound selects.
pub open spec fn start_index(b: Bound) -> int {
    match b {
        Bound::Unbounded => 0,
        Bound::Included(i) => i as int,
        Bound::Excluded(i) => i + 1,
    }
}

/// First index past the selection that an end bound gives, for a sequence of
/// length `len`. An unbounded end reaches the end of the sequence.
pub open spec fn end_index(b: Bound, len: nat) -> int {
    match b {
        Bound::Unbounded => len as int,
        Bound::Included(i) => i + 1,
        Bound::Excluded(i) => i as int,
    }
}

/// The two bounds select `[start, end)` with `0 <= start <= end <= len`.
pub open spec fn selects_within(lower: Bound, upper: Bound, len: nat) -> bool {
    0 <= start_index(lower) <= end_index(upper, len) <= len
}

/// A range of indices into a sequence.
pub trait IndexRange {
    spec fn spec_lower(&self) -> Bound;

    spec fn spec_upper(&self) -> Bound;

    fn lower_bound(&self) -> (b: Bound)
        ensures
            b == self.spec_lower(),
    ;

    fn upper_bound(&self) -> (b: Bound)
        ensures
            b == self.spec_upper(),
    ;
}

/// Normalizes `range` to `(start, end)` for a sequence of length `len`.
pub fn normalize<R: IndexRange>(range: &R, len: usize) -> (r: (usize, usize))
    requires
        selects_within(range.spec_lower(), range.spec_upper(), len as nat),
    ensures
        r.0 == start_index(range.spec_lower()),
        r.1 == end_index(range.spec_upper(), len as nat),
{
    let start: usize = match range.lower_bound() {
        Bound::Unbounded => 0,
        Bound::Included(i) => i,
        Bound::Excluded(i) => i + 1,
    };
    let end: usize = match range.upper_bound() {
        Bound::Unbounded => len,
        Bound::Included(i) => i + 1,
        Bound::Excluded(i) => i,
    };
    (start, end)
}

#[verifier::external_type_specification]
#[verifier::reject_recursive_types(Idx)]
pub struct ExRangeFrom<Idx>(RangeFrom<Idx>);

#[verifier::external_type_specification]
#[verifier::reject_recursive_types(Idx)]
pub struct ExRangeTo<Idx>(RangeTo<Idx>);

#[verifier::external_type_specification]
#[verifier::reject_recursive_types(Idx)]
pub struct ExRangeToInclusive<Idx>(RangeToInclusive<Idx>);

#[verifier::external_type_specification]
pub struct ExRangeFull(RangeFull);

/// Relies on `RangeInclusive::start`: it returns the lower bound the range was built with.
pub assume_specification<Idx>[ RangeInclusive::<Idx>::start ](r: &RangeInclusive<Idx>) -> (s: &Idx)
    ensures
        *s == r@.start,
;

/// Relies on `RangeInclusive::end`: it returns the upper bound the range was built with.
pub assume_specification<Idx>[ RangeInclusive::<Idx>::end ](r: &RangeInclusive<Idx>) -> (e: &Idx)
    ensures
        *e == r@.end,
;

impl IndexRange for (Bound, Bound) {
    open spec fn spec_lower(&self) -> Bound {
        self.0
    }

    open spec fn spec_upper(&self) -> Bound {
        self.1
    }

    fn lower_bound(&self) -> (b: Bound) {
        self.0
    }

    fn upper_bound(&self) -> (b: Bound) {
        self.1
    }
}

impl IndexRange for Range<usize> {
    open spec fn spec_lower(&self) -> Bound {
        Bound::Included(self.start)
    }

    open spec fn spec_upper(&self) -> Bound {
        Bound::Excluded(self.end)
    }

    fn lower_bound(&self) -> (b: Bound) {
        Bound::Included(self.start)
    }

    fn upper_bound(&self) -> (b: Bound) {
        Bound::Excluded(self.end)
    }
}

/// An inclusive range that an iterator has run to its end no longer holds
/// its upper bound: its end is then exclusive, as `RangeBounds::end_bound` has it.
impl IndexRange for RangeInclusive<usize> {
    open spec fn spec_lower(&self) -> Bound {
        Bound::Included(self@.start)
    }

    open spec fn spec_upper(&self) -> Bound {
        if self@.start <= self@.end && self@.exhausted {
            Bound::Excluded(self@.end)
        } else {
            Bound::Included(self@.end)
        }
    }

    fn lower_bound(&self) -> (b: Bound) {
        Bound::Included(*self.start())
    }

    fn upper_bound(&self) -> (b: Bound) {
        let start = *self.start();
        let end = *self.end();
        if start <= end && !self.contains(&end) {
            Bound::Excluded(end)
        } else {
            Bound::Included(end)
        }
    }
}

impl IndexRange for RangeFrom<usize> {
    open spec fn spec_lower(&self) -> Bound {
        Bound::Included(self.start)
    }

    open spec fn spec_upper(&self) -> Bound {
        Bound::Unbounded
    }

    fn lower_bound(&self) -> (b: Bound) {
        Bound::Included(self.start)
    }

    fn upper_bound(&self) -> (b: Bound) {
        Bound::Unbounded
    }
}

impl IndexRange for RangeTo<usize> {
    open spec fn spec_lower(&self) -> Bound {
        Bound::Unbounded
    }

    open spec fn spec_upper(&self) -> Bound {
        Bound::Excluded(self.end)
    }

    fn lower_bound(&self) -> (b: Bound) {
        Bound::Unbounded
    }

    fn upper_bound(&self) -> (b: Bound) {
        Bound::Excluded(self.end)
    }
}

impl IndexRange for RangeToInclusive<usize> {
    open spec fn spec_lower(&self) -> Bound {
        Bound::Unbounded
    }

    open spec fn spec_upper(&self) -> Bound {
        Bound::Included(self.end)
    }

    fn lower_bound(&self) -> (b: Bound) {
        Bound::Unbounded
    }

    fn upper_bound(&self) -> (b: Bound) {
        Bound::Included(self.end)
    }
}

impl IndexRange for RangeFull {
    open spec fn spec_lower(&self) -> Bound {
        Bound::Unbounded
    }

    open spec fn spec_upper(&self) -> Bound {
        Bound::Unbounded
    }

    fn lower_bound(&self) -> (b: Bound) {
        Bound::Unbounded
    }

    fn upper_bound(&self) -> (b: Bound) {
        Bound::Unbounded
    }
}

} // verus!
