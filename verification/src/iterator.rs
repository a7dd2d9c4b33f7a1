use crate::bounds::Bound;
use crate::intervals::Interval;
use crate::step::{Bounded, Step};
use vstd::prelude::*;

verus! {

/// The integer position of the first value an interval admits over a
/// stepping domain.
pub open spec fn spec_lo_pos<T: Step>(i: Interval<T>) -> int {
    match i.lower {
        Bound::LeftUnbounded => T::min_spec().to_int(),
        Bound::LeftOf(p) => p.to_int(),
        Bound::RightOf(p) => p.to_int() + 1,
        Bound::RightUnbounded => T::max_spec().to_int() + 1,
    }
}

/// The integer position of the last value an interval admits over a
/// stepping domain.
pub open spec fn spec_hi_pos<T: Step>(i: Interval<T>) -> int {
    match i.upper {
        Bound::RightUnbounded => T::max_spec().to_int(),
        Bound::RightOf(p) => p.to_int(),
        Bound::LeftOf(p) => p.to_int() - 1,
        Bound::LeftUnbounded => T::min_spec().to_int() - 1,
    }
}

/// How many values of a stepping domain an interval admits.
pub open spec fn spec_count<T: Step>(i: Interval<T>) -> int {
    if spec_hi_pos(i) >= spec_lo_pos(i) {
        spec_hi_pos(i) - spec_lo_pos(i) + 1
    } else {
        0
    }
}

/// A cursor over the values of an interval: it narrows its own copy of
/// the interval as values are taken from either end.
#[derive(Clone, Copy, Debug)]
pub struct IntervalIterator<T> {
    pub intv: Interval<T>,
}

impl<T: Step> Interval<T> {
    /// A cursor over the values of the interval, in increasing order.
    pub fn iter(&self) -> (r: IntervalIterator<T>)
        ensures
            r.intv == *self,
    {
        IntervalIterator { intv: *self }
    }
}

impl<T: Step> IntervalIterator<T> {
    /// The interval of values the cursor has not yet produced.
    pub fn as_interval(&self) -> (r: Interval<T>)
        ensures
            r == self.intv,
    {
        self.intv
    }

    /// Skips `n` values and produces the next from the front: the
    /// value `n` positions past the first remaining one, when that
    /// many remain.
    pub fn nth(&mut self, n: usize) -> (r: Option<T>)
        ensures
            match r {
                Some(v) => n < spec_count(old(self).intv) && v.to_int() == spec_lo_pos(
                    old(self).intv,
                ) + n && spec_count(final(self).intv) == spec_count(old(self).intv) - n - 1 && (
                spec_count(final(self).intv) > 0 ==> spec_lo_pos(final(self).intv) == spec_lo_pos(
                    old(self).intv,
                ) + n + 1 && spec_hi_pos(final(self).intv) == spec_hi_pos(old(self).intv)),
                None => n >= spec_count(old(self).intv) && spec_count(final(self).intv) == 0,
            },
    {
        proof {
            T::lemma_step_laws();
            T::lemma_min_max();
        }
        let first: Option<T> = match &self.intv.lower {
            Bound::LeftUnbounded => Some(T::min_value()),
            Bound::LeftOf(p) => Some(*p),
            Bound::RightOf(p) => p.forward(1),
            Bound::RightUnbounded => None,
        };
        match first {
            None => {
                self.intv = Interval::empty();
                None
            }
            Some(f) => {
                match f.forward(n) {
                    None => {
                        self.intv = Interval::empty();
                        None
                    }
                    Some(c) => {
                        if self.intv.upper.right_of(&c) {
                            self.intv = Interval::from_bounds(Bound::RightOf(c), self.intv.upper);
                            Some(c)
                        } else {
                            self.intv = Interval::empty();
                            None
                        }
                    }
                }
            }
        }
    }

    /// Produces the next value from the front.
    pub fn next(&mut self) -> (r: Option<T>)
        ensures
            match r {
                Some(v) => spec_count(old(self).intv) > 0 && v.to_int() == spec_lo_pos(
                    old(self).intv,
                ) && spec_count(final(self).intv) == spec_count(old(self).intv) - 1 && (
                spec_count(final(self).intv) > 0 ==> spec_lo_pos(final(self).intv) == spec_lo_pos(
                    old(self).intv,
                ) + 1 && spec_hi_pos(final(self).intv) == spec_hi_pos(old(self).intv)),
                None => spec_count(old(self).intv) == 0 && spec_count(final(self).intv) == 0,
            },
    {
        self.nth(0)
    }

    /// Skips `n` values and produces the next from the back.
    pub fn nth_back(&mut self, n: usize) -> (r: Option<T>)
        ensures
            match r {
                Some(v) => n < spec_count(old(self).intv) && v.to_int() == spec_hi_pos(
                    old(self).intv,
                ) - n && spec_count(final(self).intv) == spec_count(old(self).intv) - n - 1 && (
                spec_count(final(self).intv) > 0 ==> spec_hi_pos(final(self).intv) == spec_hi_pos(
                    old(self).intv,
                ) - n - 1 && spec_lo_pos(final(self).intv) == spec_lo_pos(old(self).intv)),
                None => n >= spec_count(old(self).intv) && spec_count(final(self).intv) == 0,
            },
    {
        proof {
            T::lemma_step_laws();
            T::lemma_min_max();
        }
        let last: Option<T> = match &self.intv.upper {
            Bound::RightUnbounded => Some(T::max_value()),
            Bound::RightOf(p) => Some(*p),
            Bound::LeftOf(p) => p.backward(1),
            Bound::LeftUnbounded => None,
        };
        match last {
            None => {
                self.intv = Interval::empty();
                None
            }
            Some(l) => {
                match l.backward(n) {
                    None => {
                        self.intv = Interval::empty();
                        None
                    }
                    Some(c) => {
                        if self.intv.lower.left_of(&c) {
                            self.intv = Interval::from_bounds(self.intv.lower, Bound::LeftOf(c));
                            Some(c)
                        } else {
                            self.intv = Interval::empty();
                            None
                        }
                    }
                }
            }
        }
    }

    /// Produces the next value from the back.
    pub fn next_back(&mut self) -> (r: Option<T>)
        ensures
            match r {
                Some(v) => spec_count(old(self).intv) > 0 && v.to_int() == spec_hi_pos(
                    old(self).intv,
                ) && spec_count(final(self).intv) == spec_count(old(self).intv) - 1 && (
                spec_count(final(self).intv) > 0 ==> spec_hi_pos(final(self).intv) == spec_hi_pos(
                    old(self).intv,
                ) - 1 && spec_lo_pos(final(self).intv) == spec_lo_pos(old(self).intv)),
                None => spec_count(old(self).intv) == 0 && spec_count(final(self).intv) == 0,
            },
    {
        self.nth_back(0)
    }

    /// The number of values still to come, as a lower bound and an
    /// optional exact upper bound: exact whenever the count fits the
    /// host's size type, capped otherwise.
    pub fn size_hint(&self) -> (r: (usize, Option<usize>))
        ensures
            spec_count(self.intv) <= usize::MAX ==> r == (
                spec_count(self.intv) as usize,
                Some(spec_count(self.intv) as usize),
            ),
            spec_count(self.intv) > usize::MAX ==> r == (usize::MAX, None::<usize>),
    {
        proof {
            T::lemma_step_laws();
            T::lemma_min_max();
        }
        let first: Option<T> = match &self.intv.lower {
            Bound::LeftUnbounded => Some(T::min_value()),
            Bound::LeftOf(p) => Some(*p),
            Bound::RightOf(p) => p.forward(1),
            Bound::RightUnbounded => None,
        };
        let last: Option<T> = match &self.intv.upper {
            Bound::RightUnbounded => Some(T::max_value()),
            Bound::RightOf(p) => Some(*p),
            Bound::LeftOf(p) => p.backward(1),
            Bound::LeftUnbounded => None,
        };
        match (first, last) {
            (Some(f), Some(l)) => {
                match f.elements_between(&l) {
                    Some(d) => {
                        if d == usize::MAX {
                            (usize::MAX, None)
                        } else {
                            (d + 1, Some(d + 1))
                        }
                    }
                    None => {
                        if l.lt(&f) {
                            (0, Some(0))
                        } else {
                            (usize::MAX, None)
                        }
                    }
                }
            }
            _ => (0, Some(0)),
        }
    }

    /// The exact number of values still to come; the count must fit
    /// the host's size type.
    pub fn len(&self) -> (r: usize)
        requires
            spec_count(self.intv) <= usize::MAX,
        ensures
            r == spec_count(self.intv),
    {
        let (lo, _) = self.size_hint();
        lo
    }

    /// The remaining values, in order, collected into a vector; their
    /// number must fit the host's size type.
    pub fn to_vec(&self) -> (r: Vec<T>)
        requires
            spec_count(self.intv) <= usize::MAX,
        ensures
            r@.len() == spec_count(self.intv),
            forall|k: int|
                0 <= k < r@.len() ==> (#[trigger] r@[k]).to_int() == spec_lo_pos(self.intv) + k,
    {
        let mut it = IntervalIterator { intv: self.intv };
        let mut out: Vec<T> = Vec::new();
        let ghost total = spec_count(self.intv);
        let ghost lo0 = spec_lo_pos(self.intv);
        loop
            invariant
                total == spec_count(self.intv),
                lo0 == spec_lo_pos(self.intv),
                out@.len() + spec_count(it.intv) == total,
                total <= usize::MAX,
                spec_count(it.intv) > 0 ==> spec_lo_pos(it.intv) == lo0 + out@.len(),
                forall|k: int|
                    0 <= k < out@.len() ==> (#[trigger] out@[k]).to_int() == lo0 + k,
            decreases spec_count(it.intv),
        {
            let nx = it.next();
            match nx {
                Some(v) => {
                    out.push(v);
                }
                None => {
                    proof {
                        assert(out@.len() == total);
                        assert(total == spec_count(self.intv));
                        assert(lo0 == spec_lo_pos(self.intv));
                    }
                    return out;
                }
            }
        }
    }
}

} // verus!
