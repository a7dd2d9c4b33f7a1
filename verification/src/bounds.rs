use crate::nothing_between::NothingBetween;
use vstd::prelude::*;

verus! {

/// One bound of an interval.  `LeftOf(p)` is the cut immediately left
/// of the value `p`: it serves as an inclusive lower bound and as an
/// exclusive upper bound.  `RightOf(p)` is the cut immediately right of
/// `p`: an exclusive lower bound, or an inclusive upper bound.
#[derive(Clone, Copy, Debug)]
pub enum Bound<T> {
    LeftUnbounded,
    LeftOf(T),
    RightOf(T),
    RightUnbounded,
}

impl<T: NothingBetween> Bound<T> {
    /// Whether this cut is at or left of `other`.  Two cuts around
    /// distinct values are at the same place when nothing of the domain
    /// lies between them: for integers, `RightOf(4)` and `LeftOf(5)`
    /// are the same cut.
    pub open spec fn le_spec(self, other: Self) -> bool {
        match (self, other) {
            (Bound::LeftUnbounded, _) => true,
            (_, Bound::RightUnbounded) => true,
            (_, Bound::LeftUnbounded) => false,
            (Bound::RightUnbounded, _) => false,
            (Bound::LeftOf(s), Bound::LeftOf(o)) => !o.lt_spec(&s),
            (Bound::RightOf(s), Bound::RightOf(o)) => !o.lt_spec(&s),
            (Bound::LeftOf(s), Bound::RightOf(o)) => !o.lt_spec(&s) || o.nothing_between_spec(&s),
            (Bound::RightOf(s), Bound::LeftOf(o)) => s.lt_spec(&o),
        }
    }

    /// Whether this cut is strictly left of `other`.
    pub open spec fn lt_spec(self, other: Self) -> bool {
        !other.le_spec(self)
    }

    /// Whether the two bounds denote the same cut.
    pub open spec fn eq_spec(self, other: Self) -> bool {
        self.le_spec(other) && other.le_spec(self)
    }

    /// The side of the cut on which a domain value lies: true when `v`
    /// is on the right of the cut.  Every value is on exactly one side.
    pub open spec fn in_right(self, v: T) -> bool {
        match self {
            Bound::LeftUnbounded => true,
            Bound::LeftOf(p) => !v.lt_spec(&p),
            Bound::RightOf(p) => p.lt_spec(&v),
            Bound::RightUnbounded => false,
        }
    }

    /// The value the cut sits against, if any.
    pub open spec fn value_spec(self) -> Option<T> {
        match self {
            Bound::LeftOf(p) => Some(p),
            Bound::RightOf(p) => Some(p),
            _ => None,
        }
    }

    /// Computes `le_spec`: whether this cut is at or left of `other`.
    pub fn le_bound(&self, other: &Self) -> (r: bool)
        ensures
            r == self.le_spec(*other),
    {
        match (self, other) {
            (Bound::LeftUnbounded, _) => true,
            (_, Bound::RightUnbounded) => true,
            (_, Bound::LeftUnbounded) => false,
            (Bound::RightUnbounded, _) => false,
            (Bound::LeftOf(s), Bound::LeftOf(o)) => !o.lt(s),
            (Bound::RightOf(s), Bound::RightOf(o)) => !o.lt(s),
            (Bound::LeftOf(s), Bound::RightOf(o)) => {
                if !o.lt(s) {
                    true
                } else {
                    o.nothing_between(s)
                }
            }
            (Bound::RightOf(s), Bound::LeftOf(o)) => s.lt(o),
        }
    }

    /// True if the value is to the right of the bound.
    pub fn left_of(&self, value: &T) -> (r: bool)
        ensures
            r == self.in_right(*value),
    {
        match self {
            Bound::LeftUnbounded => true,
            Bound::LeftOf(p) => !value.lt(p),
            Bound::RightOf(p) => p.lt(value),
            Bound::RightUnbounded => false,
        }
    }

    /// True if the value is to the left of the bound.
    pub fn right_of(&self, value: &T) -> (r: bool)
        ensures
            r == !self.in_right(*value),
    {
        match self {
            Bound::LeftUnbounded => false,
            Bound::LeftOf(p) => value.lt(p),
            Bound::RightOf(p) => !p.lt(value),
            Bound::RightUnbounded => true,
        }
    }
}

/// The cut at or left of the other of two: `x` on a tie.
pub open spec fn min_bound_spec<T: NothingBetween>(x: Bound<T>, y: Bound<T>) -> Bound<T> {
    if x.le_spec(y) {
        x
    } else {
        y
    }
}

/// The cut at or right of the other of two: `y` on a tie.
pub open spec fn max_bound_spec<T: NothingBetween>(x: Bound<T>, y: Bound<T>) -> Bound<T> {
    if x.le_spec(y) {
        y
    } else {
        x
    }
}

/// Whether the cut sits against a value, rather than at an unbounded
/// end.
pub open spec fn spec_finite_cut<T>(b: Bound<T>) -> bool {
    b matches Bound::LeftOf(_) || b matches Bound::RightOf(_)
}

/// A strict region between two finite cuts holds a value of the
/// domain: the realizability law makes every finite cut gap
/// inhabited.
pub proof fn lemma_finite_region_valued<T: NothingBetween>(x: Bound<T>, y: Bound<T>)
    requires
        x.lt_spec(y),
        spec_finite_cut(x),
        spec_finite_cut(y),
    ensures
        exists|v: T| #[trigger] x.in_right(v) && !y.in_right(v),
{
    T::lemma_order_laws();
    match (x, y) {
        (Bound::LeftOf(p), Bound::LeftOf(q)) => {
            assert(x.in_right(p) && !y.in_right(p));
        }
        (Bound::LeftOf(p), Bound::RightOf(q)) => {
            assert(x.in_right(p) && !y.in_right(p));
        }
        (Bound::RightOf(p), Bound::RightOf(q)) => {
            assert(x.in_right(q) && !y.in_right(q));
        }
        (Bound::RightOf(p), Bound::LeftOf(q)) => {
            T::lemma_realizable(p, q);
            let c = choose|c: T| p.lt_spec(&c) && #[trigger] c.lt_spec(&q);
            assert(x.in_right(c) && !y.in_right(c));
        }
        _ => {
            assert(false);
        }
    }
}

/// The cut order is total.
pub proof fn lemma_le_total<T: NothingBetween>(x: Bound<T>, y: Bound<T>)
    ensures
        x.le_spec(y) || y.le_spec(x),
{
    T::lemma_order_laws();
}

/// The cut order is transitive.
pub proof fn lemma_le_trans<T: NothingBetween>(x: Bound<T>, y: Bound<T>, z: Bound<T>)
    requires
        x.le_spec(y),
        y.le_spec(z),
    ensures
        x.le_spec(z),
{
    T::lemma_order_laws();
}

/// A cut at or left of another admits every value the other admits on
/// its right: the right side shrinks as the cut moves right.
pub proof fn lemma_in_right_monotone<T: NothingBetween>(x: Bound<T>, y: Bound<T>, v: T)
    requires
        x.le_spec(y),
        y.in_right(v),
    ensures
        x.in_right(v),
{
    T::lemma_order_laws();
}

/// Replacing both sides of a comparison by cuts at the same places
/// does not change it.
pub proof fn lemma_le_congruence<T: NothingBetween>(
    x: Bound<T>,
    x2: Bound<T>,
    y: Bound<T>,
    y2: Bound<T>,
)
    requires
        x.eq_spec(x2),
        y.eq_spec(y2),
    ensures
        x.le_spec(y) == x2.le_spec(y2),
{
    if x.le_spec(y) {
        lemma_le_trans(x2, x, y);
        lemma_le_trans(x2, y, y2);
    }
    if x2.le_spec(y2) {
        lemma_le_trans(x, x2, y2);
        lemma_le_trans(x, y2, y);
    }
}

/// A cut separates the domain: every value on its left is strictly
/// below every value on its right.
pub proof fn lemma_cut_separates<T: NothingBetween>(b: Bound<T>, u: T, v: T)
    requires
        b.in_right(u),
        !b.in_right(v),
    ensures
        v.lt_spec(&u),
{
    T::lemma_order_laws();
}

/// A value on the right of one cut and on the left of another puts the
/// first cut strictly left of the second.
pub proof fn lemma_value_between_cuts<T: NothingBetween>(x: Bound<T>, y: Bound<T>, v: T)
    requires
        x.in_right(v),
        !y.in_right(v),
    ensures
        x.lt_spec(y),
{
    if y.le_spec(x) {
        lemma_in_right_monotone(y, x, v);
    }
}

} // verus!
