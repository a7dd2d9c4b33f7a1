use crate::intervals::{lemma_empty_holds_nothing, Interval};
use crate::nothing_between::NothingBetween;
use vstd::prelude::*;

verus! {

/// The result of a difference between two intervals: one interval, or
/// two disjoint ones, the first always the left-most.
#[derive(Clone, Copy, Debug)]
pub enum Pair<T: NothingBetween> {
    One(Interval<T>),
    Two(Interval<T>, Interval<T>),
}

impl<T: NothingBetween> Pair<T> {
    /// The set of values the pair stands for.
    pub open spec fn pair_contains(self, v: T) -> bool {
        match self {
            Pair::One(i) => i.contains_spec(v),
            Pair::Two(i, j) => i.contains_spec(v) || j.contains_spec(v),
        }
    }

    /// The exact value of `new_from_two`: an empty candidate collapses
    /// the result to `One`.
    pub open spec fn spec_new_from_two(intv1: Interval<T>, intv2: Interval<T>) -> Self {
        if intv1.is_empty_spec() {
            Pair::One(intv2)
        } else if intv2.is_empty_spec() {
            Pair::One(intv1)
        } else {
            Pair::Two(intv1, intv2)
        }
    }

    /// Builds a pair from two candidate intervals, which the caller
    /// already ordered left to right; an empty candidate is dropped.
    pub(crate) fn new_from_two(intv1: Interval<T>, intv2: Interval<T>) -> (r: Self)
        ensures
            r == Self::spec_new_from_two(intv1, intv2),
            forall|v: T|
                r.pair_contains(v) == (intv1.contains_spec(v) || intv2.contains_spec(v)),
            r matches Pair::Two(p1, p2) ==> !p1.is_empty_spec() && !p2.is_empty_spec(),
    {
        proof {
            if intv1.is_empty_spec() {
                lemma_empty_holds_nothing(intv1);
            } else if intv2.is_empty_spec() {
                lemma_empty_holds_nothing(intv2);
            }
        }
        if intv1.is_empty() {
            Pair::One(intv2)
        } else if intv2.is_empty() {
            Pair::One(intv1)
        } else {
            Pair::Two(intv1, intv2)
        }
    }

    /// Whether the two pairs hold equivalent intervals in the same
    /// shape.
    pub open spec fn spec_pair_equivalent(self, other: Self) -> bool {
        match (self, other) {
            (Pair::One(i), Pair::One(j)) => i.spec_equivalent(j),
            (Pair::Two(i1, i2), Pair::Two(j1, j2)) => i1.spec_equivalent(j1)
                && i2.spec_equivalent(j2),
            _ => false,
        }
    }
}

impl<T: NothingBetween> PartialEq for Pair<T> {
    /// Pairs are compared shape by shape, each interval by
    /// equivalence of its cuts.
    fn eq(&self, other: &Self) -> (r: bool) {
        match (self, other) {
            (Pair::One(i), Pair::One(j)) => i.equivalent(j),
            (Pair::Two(i1, i2), Pair::Two(j1, j2)) => i1.equivalent(j1) && i2.equivalent(j2),
            _ => false,
        }
    }
}

impl<T: NothingBetween> vstd::std_specs::cmp::PartialEqSpecImpl for Pair<T> {
    open spec fn obeys_eq_spec() -> bool {
        true
    }

    open spec fn eq_spec(&self, other: &Self) -> bool {
        self.spec_pair_equivalent(*other)
    }
}

} // verus!
